//! Per-4x4 block metadata used for neighbor-derived decoder contexts.
use vstd::prelude::*;
use super::partition::BlockSize;

verus! {

/// Number of luma intra modes (joint mode indices `0..61`).
pub const LUMA_MODE_COUNT: usize = 61;
/// The first five joint modes are the non-directional ones.
pub const NON_DIRECTIONAL_MODES_COUNT: u8 = 5;
/// Default ordering of the directional modes, as offsets from the first directional mode.
pub const DEFAULT_MODE_LIST_Y: [u8; 56] = [
    17, 45, 3, 10, 24, 31, 38, 52, 15, 19, 43, 47, 1, 5, 8, 12, 22, 26, 29, 33, 36, 40, 50, 54,
    16, 18, 44, 46, 2, 4, 9, 11, 23, 25, 30, 32, 37, 39, 51, 53, 14, 20, 42, 48, 0, 6, 7, 13,
    21, 27, 28, 34, 35, 41, 49, 55,
];

/// Metadata of one 4x4 luma unit.
#[derive(Debug, Clone, Copy, PartialEq, Eq, Structural)]
pub struct BlockInfo {
    pub present: bool,
    pub intra_mode: u8,
    pub skip: bool,
    pub tx_size: u8,
}

/// The metadata of a unit that nothing has been decoded into.
pub open spec fn spec_absent() -> BlockInfo {
    BlockInfo { present: false, intra_mode: 0, skip: false, tx_size: 0 }
}

impl Default for BlockInfo {
    fn default() -> (b: Self)
        ensures
            b == spec_absent(),
    {
        BlockInfo { present: false, intra_mode: 0, skip: false, tx_size: 0 }
    }
}

/// The abstract content of a block grid: its size in units and its entries, row-major.
pub struct GridModel {
    pub cols: int,
    pub rows: int,
    pub entries: Seq<BlockInfo>,
}

impl GridModel {
    /// The metadata of the unit at `(row, col)`.
    pub open spec fn entry(self, row: int, col: int) -> BlockInfo {
        self.entries[row * self.cols + col]
    }

    /// The unit at `(col, row)` if it lies in the grid and holds decoded metadata.
    pub open spec fn spec_entry_at(self, col: int, row: int) -> Option<BlockInfo> {
        if col < 0 || row < 0 || col >= self.cols || row >= self.rows || !self.entry(row, col).present {
            None
        } else {
            Some(self.entry(row, col))
        }
    }

    /// A decoded unit lies in row `row` among the columns covered by a block at `bx` of size `b`.
    pub open spec fn spec_any_in_row(self, row: int, bx: usize, b: BlockSize) -> bool {
        exists|c: int| bx / 4 <= c < bx / 4 + spec_units4(b.width as int) && c < self.cols
            && #[trigger] self.entry(row, c).present
    }

    /// A decoded unit lies in column `col` among the rows covered by a block at `by` of size `b`.
    pub open spec fn spec_any_in_col(self, col: int, by: usize, b: BlockSize) -> bool {
        exists|r: int| by / 4 <= r < by / 4 + spec_units4(b.height as int) && r < self.rows
            && #[trigger] self.entry(r, col).present
    }

    pub open spec fn spec_ctx_above(self, bx: usize, by: usize, b: BlockSize) -> bool {
        by != 0 && self.spec_any_in_row(by / 4 - 1, bx, b)
    }

    pub open spec fn spec_ctx_left(self, bx: usize, by: usize, b: BlockSize) -> bool {
        bx != 0 && self.spec_any_in_col(bx / 4 - 1, by, b)
    }

    /// The joint mode of the unit below-left of a block, 0 when absent.
    pub open spec fn spec_bottom_left_mode(self, bx: usize, by: usize, b: BlockSize) -> u8 {
        match self.spec_entry_at(bx / 4 - 1, spec_units4(by + b.height) - 1) {
            Some(info) => info.intra_mode,
            None => 0,
        }
    }

    /// The joint mode of the unit above-right of a block, 0 when absent.
    pub open spec fn spec_above_right_mode(self, bx: usize, by: usize, b: BlockSize) -> u8 {
        match self.spec_entry_at(spec_units4(bx + b.width) - 1, by / 4 - 1) {
            Some(info) => info.intra_mode,
            None => 0,
        }
    }

    /// The grid after setting every unit of the block of size `b` at `(bx, by)` to `info`.
    pub open spec fn filled(self, bx: usize, by: usize, b: BlockSize, info: BlockInfo) -> GridModel {
        GridModel {
            entries: Seq::new(self.entries.len(), |i: int| if spec_in_region(bx, by, b, i / self.cols, i % self.cols) {
                info
            } else {
                self.entries[i]
            }),
            ..self
        }
    }
}

/// Grid of per-4x4 metadata covering a frame, row-major.
#[derive(Debug, Clone)]
pub struct BlockInfoGrid {
    cols4: usize,
    rows4: usize,
    entries: Vec<BlockInfo>,
}

/// The model of a grid covering a `w` x `h` frame with every unit absent.
pub open spec fn spec_empty_grid(w: usize, h: usize) -> GridModel {
    GridModel {
        cols: spec_units4(w as int),
        rows: spec_units4(h as int),
        entries: Seq::new((spec_units4(h as int) * spec_units4(w as int)) as nat, |i: int| spec_absent()),
    }
}

/// A grid whose units were set to `info` inside a block and kept elsewhere has the filled model.
proof fn lemma_filled_model(g1: BlockInfoGrid, g0: BlockInfoGrid, bx: usize, by: usize, b: BlockSize, info: BlockInfo)
    requires
        g0.wf(),
        g1.wf(),
        g1.cols() == g0.cols(),
        g1.rows() == g0.rows(),
        forall|r: int, c: int| 0 <= r < g1.rows() && 0 <= c < g1.cols() ==>
            #[trigger] g1.entry(r, c) == (if spec_in_region(bx, by, b, r, c) { info } else { g0.entry(r, c) }),
    ensures
        g1.model() == g0.model().filled(bx, by, b, info),
{
    let cols = g0.cols();
    let rows = g0.rows();
    let f = g0.model().filled(bx, by, b, info);
    assert forall|i: int| 0 <= i < g1.model().entries.len() implies g1.model().entries[i] == f.entries[i] by {
        let r = i / cols;
        let c = i % cols;
        assert(cols > 0) by (nonlinear_arith)
            requires i < rows * cols, 0 <= i, rows >= 0;
        vstd::arithmetic::div_mod::lemma_fundamental_div_mod(i, cols);
        assert(0 <= r < rows) by (nonlinear_arith)
            requires i == cols * r + c, 0 <= c < cols, 0 <= i < rows * cols, cols > 0, r == i / cols;
        assert(r * cols + c == i) by (nonlinear_arith)
            requires i == cols * r + c;
        assert(g1.entry(r, c) == g1.model().entries[i]);
        assert(g0.entry(r, c) == g0.model().entries[i]);
    }
    assert(g1.model().entries =~= f.entries);
}

/// Number of 4-sample units needed to cover `n` samples.
pub open spec fn spec_units4(n: int) -> int {
    (n + 3) / 4
}

/// Whether the 4x4 unit at `(row, col)` lies in the block of size `b` at sample position `(bx, by)`.
pub open spec fn spec_in_region(bx: usize, by: usize, b: BlockSize, row: int, col: int) -> bool {
    &&& bx / 4 <= col < bx / 4 + spec_units4(b.width as int)
    &&& by / 4 <= row < by / 4 + spec_units4(b.height as int)
}

/// A unit holds a directional luma mode.
pub open spec fn spec_is_directional(info: BlockInfo) -> bool {
    info.intra_mode >= 5
}

proof fn lemma_index_bounds(r: int, c: int, rows: int, cols: int)
    requires
        0 <= r < rows,
        0 <= c < cols,
    ensures
        0 <= r * cols + c < rows * cols,
        r * cols + c < (r + 1) * cols,
        r * cols <= r * cols + c,
{
    assert(r * cols + c < rows * cols) by (nonlinear_arith)
        requires 0 <= r < rows, 0 <= c < cols;
    assert(0 <= r * cols) by (nonlinear_arith)
        requires 0 <= r, 0 <= cols;
    assert((r + 1) * cols == r * cols + cols) by (nonlinear_arith);
}

proof fn lemma_index_distinct(r1: int, c1: int, r2: int, c2: int, cols: int)
    requires
        0 <= r1,
        0 <= r2,
        0 <= c1 < cols,
        0 <= c2 < cols,
        r1 != r2 || c1 != c2,
    ensures
        r1 * cols + c1 != r2 * cols + c2,
{
    if r1 == r2 {
    } else if r1 < r2 {
        assert(r1 * cols + c1 < r2 * cols + c2) by (nonlinear_arith)
            requires r1 < r2, 0 <= c1 < cols, 0 <= c2;
    } else {
        assert(r2 * cols + c2 < r1 * cols + c1) by (nonlinear_arith)
            requires r2 < r1, 0 <= c2 < cols, 0 <= c1;
    }
}

impl BlockInfoGrid {
    /// Units per row.
    pub closed spec fn cols(&self) -> int {
        self.cols4 as int
    }

    /// Unit rows.
    pub closed spec fn rows(&self) -> int {
        self.rows4 as int
    }

    /// The metadata of the unit at `(row, col)`.
    pub closed spec fn entry(&self, row: int, col: int) -> BlockInfo {
        self.entries@[row * self.cols4 + col]
    }

    /// The entries vector matches the grid dimensions.
    pub closed spec fn wf(&self) -> bool {
        self.entries@.len() == self.rows4 * self.cols4
    }

    /// The grid's abstract content.
    pub closed spec fn model(&self) -> GridModel {
        GridModel { cols: self.cols4 as int, rows: self.rows4 as int, entries: self.entries@ }
    }

    pub open spec fn spec_entry_at(&self, col: int, row: int) -> Option<BlockInfo> {
        self.model().spec_entry_at(col, row)
    }

    pub open spec fn spec_ctx_above(&self, bx: usize, by: usize, b: BlockSize) -> bool {
        self.model().spec_ctx_above(bx, by, b)
    }

    pub open spec fn spec_ctx_left(&self, bx: usize, by: usize, b: BlockSize) -> bool {
        self.model().spec_ctx_left(bx, by, b)
    }

    pub open spec fn spec_bottom_left_mode(&self, bx: usize, by: usize, b: BlockSize) -> u8 {
        self.model().spec_bottom_left_mode(bx, by, b)
    }

    pub open spec fn spec_above_right_mode(&self, bx: usize, by: usize, b: BlockSize) -> u8 {
        self.model().spec_above_right_mode(bx, by, b)
    }

    /// A grid covering a `frame_width` x `frame_height` frame with every unit absent.
    pub fn new(frame_width: usize, frame_height: usize) -> (g: Self)
        requires
            spec_units4(frame_height as int) * spec_units4(frame_width as int) <= usize::MAX,
        ensures
            g.wf(),
            g.cols() == spec_units4(frame_width as int),
            g.rows() == spec_units4(frame_height as int),
            forall|r: int, c: int| 0 <= r < g.rows() && 0 <= c < g.cols() ==> g.entry(r, c) == spec_absent(),
            g.model() == spec_empty_grid(frame_width, frame_height),
    {
        let cols4 = div_ceil4(frame_width);
        let rows4 = div_ceil4(frame_height);
        let n = rows4 * cols4;
        let mut entries: Vec<BlockInfo> = Vec::new();
        let mut i: usize = 0;
        while i < n
            invariant
                i <= n,
                entries@.len() == i,
                forall|j: int| 0 <= j < i ==> entries@[j] == spec_absent(),
            decreases n - i,
        {
            entries.push(BlockInfo { present: false, intra_mode: 0, skip: false, tx_size: 0 });
            i = i + 1;
        }
        let g = BlockInfoGrid { cols4, rows4, entries };
        assert forall|r: int, c: int| 0 <= r < g.rows() && 0 <= c < g.cols() implies g.entry(r, c) == spec_absent() by {
            lemma_index_bounds(r, c, rows4 as int, cols4 as int);
        }
        assert(g.model().entries =~= spec_empty_grid(frame_width, frame_height).entries);
        g
    }

    /// Whether any unit directly above the block holds decoded metadata.
    pub fn ctx_above(&self, bx: usize, by: usize, bsize: BlockSize) -> (b: bool)
        requires
            self.wf(),
            by == 0 || (by >= 4 && (by / 4 - 1 < self.rows() || bx / 4 >= self.cols())),
        ensures
            b == self.spec_ctx_above(bx, by, bsize),
    {
        if by == 0 {
            return false;
        }
        let row = (by / 4) - 1;
        let start_col = bx / 4;
        let cols = div_ceil4(bsize.width);
        let end = if start_col > usize::MAX - cols { usize::MAX } else { start_col + cols };
        let end = if end < self.cols4 { end } else { self.cols4 };
        let mut col = start_col;
        while col < end
            invariant
                self.wf(),
                start_col <= col,
                end <= self.cols4,
                row == by / 4 - 1,
                start_col == bx / 4,
                end <= start_col + spec_units4(bsize.width as int),
                start_col < end ==> row < self.rows4,
                end == self.cols4 || end == start_col + spec_units4(bsize.width as int),
                forall|c: int| start_col <= c < col ==> !(#[trigger] self.model().entry(row as int, c)).present,
            decreases end - col,
        {
            proof {
                lemma_index_bounds(row as int, col as int, self.rows4 as int, self.cols4 as int);
            }
            let idx = self.index(col, row);
            if self.entries[idx].present {
                assert(self.model().entry(row as int, col as int).present);
                return true;
            }
            col = col + 1;
        }
        false
    }

    /// Whether any unit directly left of the block holds decoded metadata.
    pub fn ctx_left(&self, bx: usize, by: usize, bsize: BlockSize) -> (b: bool)
        requires
            self.wf(),
            bx == 0 || (bx >= 4 && (bx / 4 - 1 < self.cols() || by / 4 >= self.rows())),
        ensures
            b == self.spec_ctx_left(bx, by, bsize),
    {
        if bx == 0 {
            return false;
        }
        let col = (bx / 4) - 1;
        let start_row = by / 4;
        let rows = div_ceil4(bsize.height);
        let end = if start_row > usize::MAX - rows { usize::MAX } else { start_row + rows };
        let end = if end < self.rows4 { end } else { self.rows4 };
        let mut row = start_row;
        while row < end
            invariant
                self.wf(),
                start_row <= row,
                end <= self.rows4,
                col == bx / 4 - 1,
                start_row == by / 4,
                end <= start_row + spec_units4(bsize.height as int),
                start_row < end ==> col < self.cols4,
                end == self.rows4 || end == start_row + spec_units4(bsize.height as int),
                forall|r: int| start_row <= r < row ==> !(#[trigger] self.model().entry(r, col as int)).present,
            decreases end - row,
        {
            proof {
                lemma_index_bounds(row as int, col as int, self.rows4 as int, self.cols4 as int);
            }
            let idx = self.index(col, row);
            if self.entries[idx].present {
                assert(self.model().entry(row as int, col as int).present);
                return true;
            }
            row = row + 1;
        }
        false
    }

    /// Partition context: the number of sides (above, left) with decoded neighbors.
    pub fn partition_ctx(&self, bx: usize, by: usize, bsize: BlockSize) -> (ctx: usize)
        requires
            self.wf(),
            by == 0 || (by >= 4 && (by / 4 - 1 < self.rows() || bx / 4 >= self.cols())),
            bx == 0 || (bx >= 4 && (bx / 4 - 1 < self.cols() || by / 4 >= self.rows())),
        ensures
            ctx == (if self.spec_ctx_above(bx, by, bsize) { 1int } else { 0 }) + (if self.spec_ctx_left(bx, by, bsize) { 1int } else { 0 }),
    {
        let a: usize = if self.ctx_above(bx, by, bsize) { 1 } else { 0 };
        let l: usize = if self.ctx_left(bx, by, bsize) { 1 } else { 0 };
        a + l
    }

    /// Luma mode context: the number of directional neighbors above and left.
    pub fn y_mode_ctx(&self, bx: usize, by: usize) -> (ctx: usize)
        requires
            self.wf(),
        ensures
            ctx == (match self.spec_entry_at((bx / 4) as int, by / 4 - 1) { Some(i) => if spec_is_directional(i) { 1int } else { 0 }, None => 0 })
                + (match self.spec_entry_at(bx / 4 - 1, (by / 4) as int) { Some(i) => if spec_is_directional(i) { 1int } else { 0 }, None => 0 }),
    {
        let col = (bx / 4) as isize;
        let row = (by / 4) as isize;
        let above = match self.entry_at_4x4(col, row - 1) {
            Some(info) => is_directional_mode(info),
            None => false,
        };
        let left = match self.entry_at_4x4(col - 1, row) {
            Some(info) => is_directional_mode(info),
            None => false,
        };
        let a: usize = if above { 1 } else { 0 };
        let l: usize = if left { 1 } else { 0 };
        a + l
    }

    /// The luma joint modes in the order a block of size `bsize` at `(bx, by)` ranks them:
    /// each candidate of `spec_mode_candidates` once, in first-proposed order.
    pub fn y_intra_mode_list(&self, bx: usize, by: usize, bsize: BlockSize) -> (list: [u8; 61])
        requires
            self.wf(),
            bx + bsize.width <= usize::MAX,
            by + bsize.height <= usize::MAX,
            bsize.width >= 8 && bsize.height >= 8 ==> self.spec_bottom_left_mode(bx, by, bsize) < 61
                && self.spec_above_right_mode(bx, by, bsize) < 61,
            bsize.width * bsize.height <= usize::MAX,
        ensures
            list@ == spec_dedup(spec_mode_candidates(self.model(), bx, by, bsize)),
    {
        let mut out = [0u8; 61];
        let mut selected = [false; 61];
        let mut mode_idx: usize = 0;
        let ghost mut c: Seq<u8> = Seq::empty();
        proof {
            assert(spec_dedup(c) =~= Seq::<u8>::empty());
        }
        let mut mode: u8 = 0;
        while mode < NON_DIRECTIONAL_MODES_COUNT
            invariant
                mode <= 5,
                spec_list_state(out@, selected@, mode_idx as int, c),
                c =~= seq![0u8, 1u8, 2u8, 3u8, 4u8].take(mode as int),
            decreases 5 - mode,
        {
            propose_mode(&mut out, &mut selected, &mut mode_idx, mode, Ghost(c));
            proof {
                c = c.push(mode);
            }
            mode = mode + 1;
        }
        let ghost nd = c;
        if !(bsize.width < 8 || bsize.height < 8) {
            let n0 = self.bottom_left_joint_mode(bx, by, bsize);
            let n1 = self.above_right_joint_mode(bx, by, bsize);
            let is_left_directional = n0 >= NON_DIRECTIONAL_MODES_COUNT;
            let is_above_directional = n1 >= NON_DIRECTIONAL_MODES_COUNT;
            let mut directional_mode_cnt: usize = (if is_left_directional { 1 } else { 0 }) + (if is_above_directional { 1 } else { 0 });
            if directional_mode_cnt == 2 && n0 == n1 {
                directional_mode_cnt = 1;
            }
            let first = if directional_mode_cnt == 1 && !is_left_directional { n1 } else { n0 };
            let neighbors: [u8; 2] = [first, n1];
            let ghost dirs = spec_neighbor_dirs(n0, n1);
            assert(dirs =~= neighbors@.take(directional_mode_cnt as int));
            assert(forall|i: int| 0 <= i < dirs.len() ==> 5 <= #[trigger] dirs[i] < 61);
            let mut j: usize = 0;
            while j < directional_mode_cnt
                invariant
                    j <= directional_mode_cnt <= 2,
                    dirs == neighbors@.take(directional_mode_cnt as int),
                    forall|i: int| 0 <= i < dirs.len() ==> 5 <= #[trigger] dirs[i] < 61,
                    spec_list_state(out@, selected@, mode_idx as int, c),
                    c =~= nd + dirs.take(j as int),
                decreases directional_mode_cnt - j,
            {
                let v = neighbors[j];
                assert(v == dirs[j as int]);
                propose_mode(&mut out, &mut selected, &mut mode_idx, v, Ghost(c));
                proof {
                    assert(dirs.take(j + 1) =~= dirs.take(j as int).push(v));
                    c = c.push(v);
                }
                j = j + 1;
            }
            assert(dirs.take(directional_mode_cnt as int) =~= dirs);
            let ghost base = c;
            if bsize.width * bsize.height > 64 {
                let mut delta: u8 = 0;
                while delta < 4
                    invariant
                        delta <= 4,
                        directional_mode_cnt <= 2,
                        dirs == neighbors@.take(directional_mode_cnt as int),
                        dirs.len() == directional_mode_cnt,
                        forall|i: int| 0 <= i < dirs.len() ==> 5 <= #[trigger] dirs[i] < 61,
                        spec_list_state(out@, selected@, mode_idx as int, c),
                        c =~= base + spec_mode_ring(dirs, delta as int),
                    decreases 4 - delta,
                {
                    let ghost before_delta = c;
                    let mut k: usize = 0;
                    while k < directional_mode_cnt
                        invariant
                            k <= directional_mode_cnt <= 2,
                            delta < 4,
                            dirs == neighbors@.take(directional_mode_cnt as int),
                            dirs.len() == directional_mode_cnt,
                            forall|i: int| 0 <= i < dirs.len() ==> 5 <= #[trigger] dirs[i] < 61,
                            spec_list_state(out@, selected@, mode_idx as int, c),
                            c =~= before_delta + spec_mode_pairs(dirs.take(k as int), delta as int),
                        decreases directional_mode_cnt - k,
                    {
                        let neighbor = neighbors[k];
                        assert(neighbor == dirs[k as int]);
                        let left_i: i32 = (neighbor as i32 - delta as i32 + 55) % 56;
                        let left = left_i as u8 + NON_DIRECTIONAL_MODES_COUNT;
                        let right_i: i32 = (neighbor as i32 + delta as i32 - (NON_DIRECTIONAL_MODES_COUNT - 1) as i32) % 56;
                        let right = right_i as u8 + NON_DIRECTIONAL_MODES_COUNT;
                        assert(left == spec_mode_below(neighbor, delta as int));
                        assert(right == spec_mode_above(neighbor, delta as int));
                        propose_mode(&mut out, &mut selected, &mut mode_idx, left, Ghost(c));
                        proof {
                            c = c.push(left);
                        }
                        propose_mode(&mut out, &mut selected, &mut mode_idx, right, Ghost(c));
                        proof {
                            c = c.push(right);
                            assert(dirs.take(k + 1).drop_last() =~= dirs.take(k as int));
                            assert(spec_mode_pairs(dirs.take(k + 1), delta as int)
                                == spec_mode_pairs(dirs.take(k as int), delta as int) + seq![left, right]);
                        }
                        k = k + 1;
                    }
                    proof {
                        assert(dirs.take(directional_mode_cnt as int) =~= dirs);
                    }
                    delta = delta + 1;
                }
            }
        }
        let ghost before_defaults = c;
        proof {
            lemma_default_modes_cover();
        }
        let mut i: usize = 0;
        while i < DEFAULT_MODE_LIST_Y.len()
            invariant
                i <= 56,
                spec_list_state(out@, selected@, mode_idx as int, c),
                c =~= before_defaults + spec_default_joint_modes().take(i as int),
                forall|j: int| 0 <= j < spec_default_joint_modes().len() ==> spec_default_joint_modes()[j] < 61,
            decreases 56 - i,
        {
            let joint_mode = DEFAULT_MODE_LIST_Y[i] + NON_DIRECTIONAL_MODES_COUNT;
            assert(joint_mode == spec_default_joint_modes()[i as int]);
            propose_mode(&mut out, &mut selected, &mut mode_idx, joint_mode, Ghost(c));
            proof {
                assert(spec_default_joint_modes().take(i + 1) =~= spec_default_joint_modes().take(i as int).push(joint_mode));
                c = c.push(joint_mode);
            }
            i = i + 1;
        }
        proof {
            assert(spec_default_joint_modes().take(56) =~= spec_default_joint_modes());
            assert(c =~= spec_mode_candidates(self.model(), bx, by, bsize));
            lemma_mode_list_is_permutation(*self, bx, by, bsize);
            assert(out@ =~= spec_dedup(c));
        }
        out
    }

    /// Mark every unit of the block of size `bsize` at `(bx, by)` that lies in the grid with `info`.
    pub fn fill_region(&mut self, bx: usize, by: usize, bsize: BlockSize, info: BlockInfo)
        requires
            old(self).wf(),
        ensures
            final(self).wf(),
            final(self).cols() == old(self).cols(),
            final(self).rows() == old(self).rows(),
            forall|r: int, c: int| 0 <= r < final(self).rows() && 0 <= c < final(self).cols() ==>
                final(self).entry(r, c) == (if spec_in_region(bx, by, bsize, r, c) { info } else { old(self).entry(r, c) }),
            final(self).model() == old(self).model().filled(bx, by, bsize, info),
    {
        let start_col = bx / 4;
        let start_row = by / 4;
        let cols = div_ceil4(bsize.width);
        let rows = div_ceil4(bsize.height);
        let end_row = if start_row > usize::MAX - rows { usize::MAX } else { start_row + rows };
        let end_row = if end_row < self.rows4 { end_row } else { self.rows4 };
        let end_col = if start_col > usize::MAX - cols { usize::MAX } else { start_col + cols };
        let end_col = if end_col < self.cols4 { end_col } else { self.cols4 };
        let ghost old_grid = *self;
        let mut row = start_row;
        while row < end_row
            invariant
                self.wf(),
                self.cols4 == old_grid.cols4,
                self.rows4 == old_grid.rows4,
                old_grid.wf(),
                start_row <= row,
                end_row <= start_row + spec_units4(bsize.height as int),
                end_col <= start_col + spec_units4(bsize.width as int),
                end_row <= self.rows4,
                end_col <= self.cols4,
                start_col == bx / 4,
                start_row == by / 4,
                end_row == self.rows4 || end_row == start_row + spec_units4(bsize.height as int),
                end_col == self.cols4 || end_col == start_col + spec_units4(bsize.width as int),
                forall|r: int, c: int| 0 <= r < self.rows4 && 0 <= c < self.cols4 ==>
                    #[trigger] self.entry(r, c) == (if spec_in_region(bx, by, bsize, r, c) && r < row { info } else { old_grid.entry(r, c) }),
            decreases end_row - row,
        {
            let mut col = start_col;
            while col < end_col
                invariant
                    self.wf(),
                    self.cols4 == old_grid.cols4,
                    self.rows4 == old_grid.rows4,
                    old_grid.wf(),
                    start_row <= row < end_row,
                    start_col <= col,
                    end_row <= start_row + spec_units4(bsize.height as int),
                    end_col <= start_col + spec_units4(bsize.width as int),
                    end_row <= self.rows4,
                    end_col <= self.cols4,
                    start_col == bx / 4,
                    start_row == by / 4,
                    end_row == self.rows4 || end_row == start_row + spec_units4(bsize.height as int),
                    end_col == self.cols4 || end_col == start_col + spec_units4(bsize.width as int),
                    forall|r: int, c: int| 0 <= r < self.rows4 && 0 <= c < self.cols4 ==>
                        #[trigger] self.entry(r, c) == (if spec_in_region(bx, by, bsize, r, c) && (r < row || (r == row && c < col)) { info } else { old_grid.entry(r, c) }),
                decreases end_col - col,
            {
                proof {
                    lemma_index_bounds(row as int, col as int, self.rows4 as int, self.cols4 as int);
                }
                let idx = self.index(col, row);
                let ghost before = *self;
                self.entries.set(idx, info);
                proof {
                    assert forall|r: int, c: int| 0 <= r < self.rows4 && 0 <= c < self.cols4 implies
                        #[trigger] self.entry(r, c) == (if spec_in_region(bx, by, bsize, r, c) && (r < row || (r == row && c < col + 1)) { info } else { old_grid.entry(r, c) }) by {
                        lemma_index_bounds(r, c, self.rows4 as int, self.cols4 as int);
                        if r != row || c != col {
                            lemma_index_distinct(r, c, row as int, col as int, self.cols4 as int);
                            assert(self.entry(r, c) == before.entry(r, c));
                        }
                    }
                }
                col = col + 1;
            }
            row = row + 1;
        }
        proof {
            lemma_filled_model(*self, old_grid, bx, by, bsize, info);
        }
    }

    fn index(&self, col: usize, row: usize) -> (i: usize)
        requires
            row < self.rows4,
            col < self.cols4,
            self.wf(),
        ensures
            i == row * self.cols4 + col,
            i < self.entries@.len(),
    {
        let len = self.entries.len();
        proof {
            lemma_index_bounds(row as int, col as int, self.rows4 as int, self.cols4 as int);
            assert(row * self.cols4 + col < len);
        }
        row * self.cols4 + col
    }

    fn entry_at_4x4(&self, col: isize, row: isize) -> (r: Option<BlockInfo>)
        requires
            self.wf(),
        ensures
            r == self.spec_entry_at(col as int, row as int),
    {
        if col < 0 || row < 0 {
            return None;
        }
        let col = col as usize;
        let row = row as usize;
        if col >= self.cols4 || row >= self.rows4 {
            return None;
        }
        let info = self.entries[self.index(col, row)];
        if info.present {
            Some(info)
        } else {
            None
        }
    }

    fn bottom_left_joint_mode(&self, bx: usize, by: usize, bsize: BlockSize) -> (m: u8)
        requires
            self.wf(),
            by + bsize.height <= usize::MAX,
        ensures
            m == self.spec_bottom_left_mode(bx, by, bsize),
    {
        let row = div_ceil4(by + bsize.height) as isize - 1;
        match self.entry_at_4x4((bx / 4) as isize - 1, row) {
            Some(info) => info.intra_mode,
            None => 0,
        }
    }

    fn above_right_joint_mode(&self, bx: usize, by: usize, bsize: BlockSize) -> (m: u8)
        requires
            self.wf(),
            bx + bsize.width <= usize::MAX,
        ensures
            m == self.spec_above_right_mode(bx, by, bsize),
    {
        let col = div_ceil4(bx + bsize.width) as isize - 1;
        match self.entry_at_4x4(col, (by / 4) as isize - 1) {
            Some(info) => info.intra_mode,
            None => 0,
        }
    }
}

/// `s` with every value after its first occurrence removed.
pub open spec fn spec_dedup(s: Seq<u8>) -> Seq<u8>
    decreases s.len(),
{
    if s.len() == 0 {
        Seq::empty()
    } else {
        let prev = spec_dedup(s.drop_last());
        if prev.contains(s.last()) {
            prev
        } else {
            prev.push(s.last())
        }
    }
}

/// The default directional modes as joint mode indices.
pub open spec fn spec_default_joint_modes() -> Seq<u8> {
    DEFAULT_MODE_LIST_Y@.map_values(|m: u8| (m + 5) as u8)
}

/// The directional neighbor modes that seed the list: each directional neighbor once,
/// below-left first.
pub open spec fn spec_neighbor_dirs(left: u8, above: u8) -> Seq<u8> {
    let l = left >= 5;
    let a = above >= 5;
    let cnt: int = (if l { 1int } else { 0 }) + (if a { 1int } else { 0 });
    let cnt = if cnt == 2 && left == above { 1 } else { cnt };
    let first = if cnt == 1 && !l { above } else { left };
    seq![first, above].take(cnt)
}

/// The directional mode `delta` steps below `n`, wrapping over the 56 directional modes.
pub open spec fn spec_mode_below(n: u8, delta: int) -> u8 {
    ((n as int - delta + 55) % 56 + 5) as u8
}

/// The directional mode `delta` steps above `n`, wrapping over the 56 directional modes.
pub open spec fn spec_mode_above(n: u8, delta: int) -> u8 {
    ((n as int + delta - 4) % 56 + 5) as u8
}

/// The modes around each of `dirs` at distance `delta`, below then above.
pub open spec fn spec_mode_pairs(dirs: Seq<u8>, delta: int) -> Seq<u8>
    decreases dirs.len(),
{
    if dirs.len() == 0 {
        Seq::empty()
    } else {
        spec_mode_pairs(dirs.drop_last(), delta) + seq![spec_mode_below(dirs.last(), delta), spec_mode_above(dirs.last(), delta)]
    }
}

/// The modes around `dirs` for distances `0..n`.
pub open spec fn spec_mode_ring(dirs: Seq<u8>, n: int) -> Seq<u8>
    decreases n,
{
    if n <= 0 {
        Seq::empty()
    } else {
        spec_mode_ring(dirs, n - 1) + spec_mode_pairs(dirs, n - 1)
    }
}

/// The modes proposed ahead of the default order for a block of size `b` at `(bx, by)`:
/// the non-directional modes, then for blocks of at least 8x8 the directional neighbors and
/// (above 64 samples) the modes around them.
pub open spec fn spec_mode_seed(g: GridModel, bx: usize, by: usize, b: BlockSize) -> Seq<u8> {
    let nd = seq![0u8, 1u8, 2u8, 3u8, 4u8];
    let middle = if b.width < 8 || b.height < 8 {
        Seq::empty()
    } else {
        let dirs = spec_neighbor_dirs(g.spec_bottom_left_mode(bx, by, b), g.spec_above_right_mode(bx, by, b));
        dirs + if b.width * b.height > 64 { spec_mode_ring(dirs, 4) } else { Seq::empty() }
    };
    nd + middle
}

/// The candidate modes in the order they are proposed: the seed, then the default directional order.
pub open spec fn spec_mode_candidates(g: GridModel, bx: usize, by: usize, b: BlockSize) -> Seq<u8> {
    spec_mode_seed(g, bx, by, b) + spec_default_joint_modes()
}

/// The state of a partly built mode list: `out[..k]` and `selected` hold the distinct
/// candidates proposed so far, in order.
pub open spec fn spec_list_state(out: Seq<u8>, selected: Seq<bool>, k: int, c: Seq<u8>) -> bool {
    let d = spec_dedup(c);
    &&& out.len() == 61
    &&& selected.len() == 61
    &&& k == d.len()
    &&& k <= 61
    &&& forall|i: int| 0 <= i < k ==> out[i] == d[i]
    &&& forall|v: int| 0 <= v < 61 ==> (selected[v] <==> d.contains(v as u8))
    &&& forall|i: int| 0 <= i < c.len() ==> c[i] < 61
}

proof fn lemma_dedup_props(s: Seq<u8>)
    ensures
        spec_dedup(s).no_duplicates(),
        forall|x: u8| spec_dedup(s).contains(x) <==> s.contains(x),
    decreases s.len(),
{
    broadcast use vstd::seq_lib::group_seq_properties;
    if s.len() > 0 {
        lemma_dedup_props(s.drop_last());
        let prev = spec_dedup(s.drop_last());
        assert(s =~= s.drop_last().push(s.last()));
        if !prev.contains(s.last()) {
            let d = prev.push(s.last());
            assert forall|i: int, j: int| 0 <= i < d.len() && 0 <= j < d.len() && i != j implies d[i] != d[j] by {
                if i < prev.len() && j < prev.len() {
                    assert(prev[i] != prev[j]);
                } else if i < prev.len() {
                    assert(prev.contains(prev[i]));
                } else {
                    assert(prev.contains(prev[j]));
                }
            }
        }
    }
}

/// The prefix `s` keeps its distinct values in front when more values follow.
proof fn lemma_dedup_prefix(s: Seq<u8>, t: Seq<u8>)
    ensures
        spec_dedup(s + t).len() >= spec_dedup(s).len(),
        spec_dedup(s + t).take(spec_dedup(s).len() as int) == spec_dedup(s),
    decreases t.len(),
{
    if t.len() == 0 {
        assert(s + t =~= s);
    } else {
        lemma_dedup_prefix(s, t.drop_last());
        assert((s + t).drop_last() =~= s + t.drop_last());
        let k = spec_dedup(s).len() as int;
        let p = spec_dedup(s + t.drop_last());
        assert(p.push((s + t).last()).take(k) =~= p.take(k));
    }
}

/// A list of distinct values below 61 has at most 61 entries, and fewer when one is missing.
proof fn lemma_distinct_below_61(d: Seq<u8>, v: u8)
    requires
        d.no_duplicates(),
        forall|i: int| 0 <= i < d.len() ==> d[i] < 61,
    ensures
        d.len() <= 61,
        v < 61 && !d.contains(v) ==> d.len() < 61,
        (forall|x: u8| x < 61 ==> d.contains(x)) ==> d.len() == 61,
{
    broadcast use vstd::set_lib::range_set_properties;
    let full = Set::<u8>::range(0u8, 61u8);
    assert(full.len() == 61);
    d.unique_seq_to_set();
    assert(d.to_set().subset_of(full));
    vstd::set_lib::lemma_len_subset(d.to_set(), full);
    if v < 61 && !d.contains(v) {
        assert(d.to_set().subset_of(full.remove(v)));
        vstd::set_lib::lemma_len_subset(d.to_set(), full.remove(v));
    }
    if forall|x: u8| x < 61 ==> d.contains(x) {
        assert(d.to_set() =~= full);
    }
}

/// Where each directional offset stands in the default order.
spec fn spec_default_positions() -> Seq<int> {
    seq![44, 12, 28, 2, 29, 13, 45, 46, 14, 30, 3, 31, 15, 47, 40, 8, 24, 0, 25, 9, 41, 48, 16, 32, 4, 33, 17, 49, 50, 18, 34, 5, 35, 19, 51, 52, 20, 36, 6, 37, 21, 53, 42, 10, 26, 1, 27, 11, 43, 54, 22, 38, 7, 39, 23, 55]
}

/// The default order names every directional mode.
proof fn lemma_default_modes_cover()
    ensures
        forall|x: u8| 5 <= x < 61 ==> spec_default_joint_modes().contains(x),
        forall|i: int| 0 <= i < spec_default_joint_modes().len() ==> spec_default_joint_modes()[i] < 61,
{
    let s = DEFAULT_MODE_LIST_Y@;
    let pos = spec_default_positions();
    assert forall|y: u8| y < 56 implies s.contains(y) by {
        if y == 0 {} else if y == 1 {} else if y == 2 {} else if y == 3 {} else if y == 4 {} else if y == 5 {} else if y == 6 {} else if y == 7 {} else if y == 8 {} else if y == 9 {} else if y == 10 {} else if y == 11 {} else if y == 12 {} else if y == 13 {} else if y == 14 {} else if y == 15 {} else if y == 16 {} else if y == 17 {} else if y == 18 {} else if y == 19 {} else if y == 20 {} else if y == 21 {} else if y == 22 {} else if y == 23 {} else if y == 24 {} else if y == 25 {} else if y == 26 {} else if y == 27 {} else if y == 28 {} else if y == 29 {} else if y == 30 {} else if y == 31 {} else if y == 32 {} else if y == 33 {} else if y == 34 {} else if y == 35 {} else if y == 36 {} else if y == 37 {} else if y == 38 {} else if y == 39 {} else if y == 40 {} else if y == 41 {} else if y == 42 {} else if y == 43 {} else if y == 44 {} else if y == 45 {} else if y == 46 {} else if y == 47 {} else if y == 48 {} else if y == 49 {} else if y == 50 {} else if y == 51 {} else if y == 52 {} else if y == 53 {} else if y == 54 {} else if y == 55 {}
        assert(s[pos[y as int]] == y);
    }
    let d = spec_default_joint_modes();
    assert forall|x: u8| 5 <= x < 61 implies d.contains(x) by {
        let y = (x - 5) as u8;
        assert(DEFAULT_MODE_LIST_Y@.contains(y));
        let i = choose|i: int| 0 <= i < DEFAULT_MODE_LIST_Y@.len() && DEFAULT_MODE_LIST_Y@[i] == y;
        assert(d[i] == x);
    }
}

/// Every ranked mode list is a permutation of the 61 joint modes that starts with the five
/// non-directional modes in order.
pub proof fn lemma_mode_list_is_permutation(g: BlockInfoGrid, bx: usize, by: usize, b: BlockSize)
    requires
        b.width >= 8 && b.height >= 8 ==> g.spec_bottom_left_mode(bx, by, b) < 61 && g.spec_above_right_mode(bx, by, b) < 61,
    ensures
        ({
            let list = spec_dedup(spec_mode_candidates(g.model(), bx, by, b));
            &&& list.len() == 61
            &&& list.no_duplicates()
            &&& forall|m: u8| m < 61 ==> list.contains(m)
            &&& list.take(5) == seq![0u8, 1u8, 2u8, 3u8, 4u8]
        }),
{
    let c = spec_mode_candidates(g.model(), bx, by, b);
    let nd = seq![0u8, 1u8, 2u8, 3u8, 4u8];
    lemma_default_modes_cover();
    lemma_dedup_props(c);
    let d = spec_dedup(c);
    lemma_candidates_below_61(g, bx, by, b);
    assert forall|i: int| 0 <= i < d.len() implies d[i] < 61 by {
        assert(d.contains(d[i]));
        assert(c.contains(d[i]));
    }
    assert forall|x: u8| x < 61 implies d.contains(x) by {
        if x < 5 {
            assert(c[x as int] == spec_mode_seed(g.model(), bx, by, b)[x as int]);
            assert(spec_mode_seed(g.model(), bx, by, b)[x as int] == nd[x as int]);
            if x == 0 {} else if x == 1 {} else if x == 2 {} else if x == 3 {} else if x == 4 {}
            assert(nd[x as int] == x);
            assert(c[x as int] == x);
        } else {
            let dm = spec_default_joint_modes();
            let a = spec_mode_seed(g.model(), bx, by, b);
            assert(dm.contains(x));
            let j = choose|j: int| 0 <= j < dm.len() && dm[j] == x;
            assert((a + dm)[a.len() + j] == dm[j]);
            assert(c[a.len() + j] == x);
        }
        assert(c.contains(x));
    }
    lemma_distinct_below_61(d, 0);
    assert(c =~= nd + (c.subrange(5, c.len() as int)));
    lemma_dedup_prefix(nd, c.subrange(5, c.len() as int));
    reveal_with_fuel(spec_dedup, 6);
    assert(spec_dedup(nd) =~= nd) by {
        assert(nd.drop_last() =~= seq![0u8, 1u8, 2u8, 3u8]);
        assert(nd.drop_last().drop_last() =~= seq![0u8, 1u8, 2u8]);
        assert(nd.drop_last().drop_last().drop_last() =~= seq![0u8, 1u8]);
        assert(nd.drop_last().drop_last().drop_last().drop_last() =~= seq![0u8]);
        assert(seq![0u8].drop_last() =~= Seq::<u8>::empty());
    }
}

proof fn lemma_ring_below_61(dirs: Seq<u8>, n: int)
    requires
        forall|i: int| 0 <= i < dirs.len() ==> 5 <= #[trigger] dirs[i] < 61,
        0 <= n <= 4,
    ensures
        forall|i: int| 0 <= i < spec_mode_ring(dirs, n).len() ==> #[trigger] spec_mode_ring(dirs, n)[i] < 61,
    decreases n,
{
    if n > 0 {
        lemma_ring_below_61(dirs, n - 1);
        lemma_pairs_below_61(dirs, n - 1);
        let p = spec_mode_ring(dirs, n - 1);
        let q = spec_mode_pairs(dirs, n - 1);
        assert forall|i: int| 0 <= i < (p + q).len() implies #[trigger] (p + q)[i] < 61 by {
            if i < p.len() {
                assert((p + q)[i] == p[i]);
            } else {
                assert((p + q)[i] == q[i - p.len()]);
            }
        }
    }
}

proof fn lemma_pairs_below_61(dirs: Seq<u8>, delta: int)
    requires
        forall|i: int| 0 <= i < dirs.len() ==> 5 <= #[trigger] dirs[i] < 61,
        0 <= delta < 4,
    ensures
        forall|i: int| 0 <= i < spec_mode_pairs(dirs, delta).len() ==> #[trigger] spec_mode_pairs(dirs, delta)[i] < 61,
    decreases dirs.len(),
{
    if dirs.len() > 0 {
        assert forall|i: int| 0 <= i < dirs.drop_last().len() implies 5 <= #[trigger] dirs.drop_last()[i] < 61 by {
            assert(dirs.drop_last()[i] == dirs[i]);
        }
        lemma_pairs_below_61(dirs.drop_last(), delta);
        assert(dirs.last() == dirs[dirs.len() - 1]);
        let p = spec_mode_pairs(dirs.drop_last(), delta);
        let q = seq![spec_mode_below(dirs.last(), delta), spec_mode_above(dirs.last(), delta)];
        assert(q[0] < 61 && q[1] < 61);
        assert forall|i: int| 0 <= i < (p + q).len() implies #[trigger] (p + q)[i] < 61 by {
            if i < p.len() {
                assert((p + q)[i] == p[i]);
            } else {
                assert((p + q)[i] == q[i - p.len()]);
            }
        }
    }
}

proof fn lemma_candidates_below_61(g: BlockInfoGrid, bx: usize, by: usize, b: BlockSize)
    requires
        b.width >= 8 && b.height >= 8 ==> g.spec_bottom_left_mode(bx, by, b) < 61 && g.spec_above_right_mode(bx, by, b) < 61,
    ensures
        forall|i: int| 0 <= i < spec_mode_candidates(g.model(), bx, by, b).len() ==> #[trigger] spec_mode_candidates(g.model(), bx, by, b)[i] < 61,
{
    lemma_default_modes_cover();
    if !(b.width < 8 || b.height < 8) {
        let dirs = spec_neighbor_dirs(g.spec_bottom_left_mode(bx, by, b), g.spec_above_right_mode(bx, by, b));
        assert(forall|i: int| 0 <= i < dirs.len() ==> 5 <= #[trigger] dirs[i] < 61);
        lemma_ring_below_61(dirs, 4);
    }
}

/// Record the proposal of mode `v`: append it unless it is already listed.
fn propose_mode(out: &mut [u8; 61], selected: &mut [bool; 61], mode_idx: &mut usize, v: u8, Ghost(c): Ghost<Seq<u8>>)
    requires
        spec_list_state(old(out)@, old(selected)@, *old(mode_idx) as int, c),
        v < 61,
    ensures
        spec_list_state(final(out)@, final(selected)@, *final(mode_idx) as int, c.push(v)),
{
    proof {
        lemma_dedup_props(c);
        let d = spec_dedup(c);
        assert forall|i: int| 0 <= i < d.len() implies d[i] < 61 by {
            assert(d.contains(d[i]));
            assert(c.contains(d[i]));
            let j = choose|j: int| 0 <= j < c.len() && c[j] == d[i];
            assert(c[j] < 61);
        }
        lemma_distinct_below_61(d, v);
        assert(c.push(v).drop_last() =~= c);
    }
    broadcast use vstd::seq_lib::group_seq_properties;
    let ghost d = spec_dedup(c);
    let ghost d2 = spec_dedup(c.push(v));
    assert(d2 == if d.contains(v) { d } else { d.push(v) });
    let idx = v as usize;
    if !selected[idx] && *mode_idx < 61 {
        out[*mode_idx] = v;
        selected[idx] = true;
        *mode_idx = *mode_idx + 1;
        assert(forall|w: u8| d2.contains(w) <==> d.contains(w) || w == v);
    }
}

/// `n` divided by four, rounded up.
fn div_ceil4(n: usize) -> (r: usize)
    ensures
        r == spec_units4(n as int),
{
    n / 4 + if n % 4 != 0 { 1 } else { 0 }
}

fn is_directional_mode(info: BlockInfo) -> (b: bool)
    ensures
        b == spec_is_directional(info),
{
    info.intra_mode >= 5
}

} // verus!
