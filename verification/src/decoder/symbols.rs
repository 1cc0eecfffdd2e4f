//! CDF tables and adaptation.
use vstd::prelude::*;
use super::partition::{BlockSize, PartitionType, partition_variants, spec_partition_variants};

verus! {

/// Partition CDFs: a binary table and placeholder tables keyed by neighbor context count (0, 1, 2).
pub const PARTITION_BINARY_CDF: [u16; 2] = [16384, 32767];
pub const PARTITION_CDF_CTX0: [u16; 10] = [4096, 8192, 12288, 16384, 19660, 22936, 25600, 28160, 30464, 32767];
pub const PARTITION_CDF_CTX1: [u16; 10] = [6144, 11264, 15360, 19456, 22528, 25088, 27136, 29184, 30976, 32767];
pub const PARTITION_CDF_CTX2: [u16; 10] = [8192, 14336, 18432, 22016, 24576, 26624, 28416, 30208, 31488, 32767];

/// Skip flag CDF for the walking skeleton.
pub const SKIP_CDF: [u16; 2] = [29360, 32767];

/// Luma intra-mode selector CDFs.
pub const Y_MODE_SET_CDF: [u16; 4] = [28863, 31022, 31724, 32767];
pub const Y_MODE_IDX_CDF_0: [u16; 8] = [15175, 20075, 21728, 24098, 26405, 27655, 28860, 32767];
pub const Y_MODE_IDX_CDF_1: [u16; 8] = [10114, 14957, 16815, 19127, 20147, 25583, 27169, 32767];
pub const Y_MODE_IDX_CDF_2: [u16; 8] = [5636, 9004, 10456, 12122, 12744, 20325, 25607, 32767];
pub const Y_MODE_IDX_OFFSET_CDF_0: [u16; 6] = [12743, 18172, 20194, 23648, 26419, 32767];
pub const Y_MODE_IDX_OFFSET_CDF_1: [u16; 6] = [8976, 16084, 20827, 24595, 28496, 32767];
pub const Y_MODE_IDX_OFFSET_CDF_2: [u16; 6] = [8784, 14556, 19710, 24903, 28724, 32767];
pub const UV_MODE_CDF_0: [u16; 8] = [9363, 20957, 22865, 24753, 26411, 27983, 30428, 32767];
pub const UV_MODE_CDF_1: [u16; 8] = [21282, 23610, 28208, 29311, 30348, 31158, 31491, 32767];

/// All-zero coefficient block marker for the walking skeleton.
pub const ALL_ZERO_CDF: [u16; 2] = [16384, 32767];

/// One adaptation step of a CDF entry towards `target`: an eighth of the gap, rounded away from zero.
pub open spec fn spec_adapt(v: u16, target: int) -> u16 {
    let current = v as int;
    let delta = target - current;
    let step = if delta > 0 { (delta + 7) / 8 } else if delta < 0 { -((-delta + 7) / 8) } else { 0 };
    let next = current + step;
    (if next < 0 { 0 } else if next > 32767 { 32767 } else { next }) as u16
}

/// The largest of `s[0..=i]`.
pub open spec fn spec_running_max(s: Seq<u16>, i: int) -> u16
    decreases i,
{
    if i <= 0 {
        s[0]
    } else {
        let m = spec_running_max(s, i - 1);
        if m > s[i] { m } else { s[i] }
    }
}

/// The CDF after observing `symbol`: entries below the symbol move towards 0 and the rest
/// towards 32767, the last entry is pinned to 32767, and the result is made nondecreasing.
/// Out-of-range symbols and tables of fewer than two entries are left unchanged.
pub open spec fn spec_cdf_update(s: Seq<u16>, symbol: int) -> Seq<u16> {
    if s.len() < 2 || symbol < 0 || symbol >= s.len() {
        s
    } else {
        let adapted = Seq::new(s.len(), |i: int| spec_adapt(s[i], if i < symbol { 0 } else { 32767 }));
        let pinned = adapted.update(s.len() - 1, 32767u16);
        Seq::new(s.len(), |i: int| spec_running_max(pinned, i))
    }
}

/// A CDF is well-formed when it is nondecreasing and ends at 32767.
pub open spec fn spec_cdf_wf(s: Seq<u16>) -> bool {
    &&& s.len() >= 2
    &&& s.last() == 32767
    &&& forall|i: int, j: int| 0 <= i <= j < s.len() ==> s[i] <= s[j]
}

proof fn lemma_running_max_props(s: Seq<u16>, i: int)
    requires
        0 <= i < s.len(),
    ensures
        forall|j: int| 0 <= j <= i ==> s[j] <= spec_running_max(s, i),
        forall|j: int| 0 <= j <= i ==> spec_running_max(s, j) <= spec_running_max(s, i),
        (forall|j: int| 0 <= j < s.len() ==> s[j] <= 32767) ==> spec_running_max(s, i) <= 32767,
    decreases i,
{
    if i > 0 {
        lemma_running_max_props(s, i - 1);
    }
}

/// The largest of `s[0..=i]` is at most any bound of those entries.
proof fn lemma_running_max_le(s: Seq<u16>, i: int, bound: int)
    requires
        0 <= i < s.len(),
        forall|j: int| 0 <= j <= i ==> s[j] <= bound,
    ensures
        spec_running_max(s, i) <= bound,
    decreases i,
{
    if i > 0 {
        lemma_running_max_le(s, i - 1, bound);
    }
}

/// Adapting a well-formed CDF towards the observed symbol makes that symbol no less likely:
/// every entry at or after the symbol moves up or stays, every entry before it moves down or
/// stays.
pub proof fn lemma_cdf_update_direction(s: Seq<u16>, symbol: int)
    requires
        spec_cdf_wf(s),
        0 <= symbol < s.len(),
    ensures
        forall|i: int| symbol <= i < s.len() ==> #[trigger] spec_cdf_update(s, symbol)[i] >= s[i],
        forall|i: int| 0 <= i < symbol ==> #[trigger] spec_cdf_update(s, symbol)[i] <= s[i],
{
    let adapted = Seq::new(s.len(), |i: int| spec_adapt(s[i], if i < symbol { 0 } else { 32767 }));
    let pinned = adapted.update(s.len() - 1, 32767u16);
    let r = spec_cdf_update(s, symbol);
    assert forall|i: int| 0 <= i < s.len() implies s[i] <= 32767 by {
        assert(s[i] <= s[s.len() - 1]);
    }
    assert forall|i: int| symbol <= i < s.len() implies #[trigger] r[i] >= s[i] by {
        lemma_running_max_props(pinned, i);
        assert(pinned[i] >= s[i]);
    }
    assert forall|i: int| 0 <= i < symbol implies #[trigger] r[i] <= s[i] by {
        assert forall|j: int| 0 <= j <= i implies pinned[j] <= s[i] by {
            assert(s[j] <= s[i]);
            assert(pinned[j] == spec_adapt(s[j], 0));
        }
        lemma_running_max_le(pinned, i, s[i] as int);
    }
}

/// Adapting a CDF keeps it well-formed: the result is nondecreasing, bounded by 32767 and
/// ends at 32767 (for any symbol within the table and any starting values).
pub proof fn lemma_cdf_update_wf(s: Seq<u16>, symbol: int)
    requires
        s.len() >= 2,
        0 <= symbol < s.len(),
    ensures
        spec_cdf_wf(spec_cdf_update(s, symbol)),
        forall|i: int| 0 <= i < s.len() ==> #[trigger] spec_cdf_update(s, symbol)[i] <= 32767,
        spec_cdf_update(s, symbol).len() == s.len(),
{
    let adapted = Seq::new(s.len(), |i: int| spec_adapt(s[i], if i < symbol { 0 } else { 32767 }));
    let pinned = adapted.update(s.len() - 1, 32767u16);
    let r = spec_cdf_update(s, symbol);
    assert(forall|j: int| 0 <= j < pinned.len() ==> pinned[j] <= 32767);
    lemma_running_max_props(pinned, s.len() - 1);
    assert(r.last() == 32767);
    assert forall|i: int, j: int| 0 <= i <= j < r.len() implies r[i] <= r[j] by {
        lemma_running_max_props(pinned, j);
    }
    assert forall|i: int| 0 <= i < s.len() implies #[trigger] r[i] <= 32767 by {
        lemma_running_max_props(pinned, i);
    }
}

/// An adaptive CDF of `N` entries.
#[derive(Debug, Clone, Copy, PartialEq, Eq)]
pub struct CdfState<const N: usize> {
    values: [u16; N],
}

impl<const N: usize> View for CdfState<N> {
    type V = Seq<u16>;

    closed spec fn view(&self) -> Seq<u16> {
        self.values@
    }
}

impl<const N: usize> CdfState<N> {
    /// An adaptive CDF of `N` entries holds exactly `N` entries.
    pub proof fn lemma_view_len(&self)
        ensures
            self@.len() == N,
    {
    }

    /// Adapting an `N`-entry table towards a symbol outside it leaves the table as it was; towards
    /// a symbol within it (`N >= 2`), the table becomes nondecreasing, ends at 32767 and has no
    /// entry above 32767, whatever it held before.
    pub proof fn lemma_update_wf(before: Self, after: Self, symbol: usize)
        requires
            after@ == spec_cdf_update(before@, symbol as int),
        ensures
            symbol >= N ==> after@ == before@,
            N >= 2 && symbol < N ==> spec_cdf_wf(after@) && forall|i: int| 0 <= i < N ==> #[trigger] after@[i] <= 32767,
    {
        before.lemma_view_len();
        if N >= 2 && symbol < N {
            lemma_cdf_update_wf(before@, symbol as int);
        }
    }

    pub fn new(values: [u16; N]) -> (s: Self)
        ensures
            s@ == values@,
    {
        CdfState { values }
    }

    pub fn as_slice(&self) -> (s: &[u16])
        ensures
            s@ == self@,
    {
        self.values.as_slice()
    }

    /// Adapt the CDF towards `symbol`.
    pub fn update(&mut self, symbol: usize)
        ensures
            final(self)@ == spec_cdf_update(old(self)@, symbol as int),
            final(self)@.len() == N,
            spec_cdf_wf(old(self)@) && symbol < N ==> (forall|i: int| symbol <= i < N ==> #[trigger] final(self)@[i] >= old(self)@[i])
                && (forall|i: int| 0 <= i < symbol ==> #[trigger] final(self)@[i] <= old(self)@[i]),
    {
        proof {
            self.lemma_view_len();
            if spec_cdf_wf(self@) && symbol < N {
                lemma_cdf_update_direction(self@, symbol as int);
            }
        }
        if N < 2 || symbol >= N {
            return;
        }
        let ghost s = self.values@;
        let mut idx: usize = 0;
        while idx < N
            invariant
                self.values@.len() == N,
                s.len() == N,
                2 <= N,
                symbol < N,
                idx <= N,
                s == old(self)@,
                forall|j: int| 0 <= j < idx ==> self.values@[j] == spec_adapt(s[j], if j < symbol { 0 } else { 32767 }),
                forall|j: int| idx <= j < N ==> self.values@[j] == s[j],
            decreases N - idx,
        {
            let target: i32 = if idx < symbol { 0 } else { 32767 };
            let current = self.values[idx] as i32;
            let delta = target - current;
            let step: i32 = if delta > 0 {
                ((delta as u32 + 7) / 8) as i32
            } else if delta < 0 {
                -((((-delta) as u32 + 7) / 8) as i32)
            } else {
                0
            };
            let next = current + step;
            let clamped: i32 = if next < 0 { 0 } else if next > 32767 { 32767 } else { next };
            self.values[idx] = clamped as u16;
            idx = idx + 1;
        }
        let ghost adapted = self.values@;
        self.values[N - 1] = 32767;
        let ghost pinned = self.values@;
        assert(adapted =~= Seq::new(s.len(), |i: int| spec_adapt(s[i], if i < symbol { 0 } else { 32767 })));
        assert(pinned =~= adapted.update(s.len() - 1, 32767u16));
        let mut k: usize = 1;
        while k < N
            invariant
                1 <= k <= N,
                self.values@.len() == N,
                pinned.len() == N,
                forall|j: int| 0 <= j < k ==> self.values@[j] == spec_running_max(pinned, j),
                forall|j: int| k <= j < N ==> self.values@[j] == pinned[j],
            decreases N - k,
        {
            let ghost before = self.values@;
            assert(before[k - 1] == spec_running_max(pinned, k - 1));
            assert(before[k as int] == pinned[k as int]);
            if self.values[k - 1] > self.values[k] {
                self.values[k] = self.values[k - 1];
            }
            assert(self.values@[k as int] == spec_running_max(pinned, k as int));
            assert(forall|j: int| 0 <= j < k ==> self.values@[j] == before[j]);
            k = k + 1;
        }
        assert(self.values@ =~= spec_cdf_update(s, symbol as int));
    }
}


/// The default CDF tables that a tile starts from.
#[derive(Debug, Clone, PartialEq, Eq)]
pub struct DefaultTileCdfs {
    pub partition_binary: [u16; 2],
    pub partition_ctx: [[u16; 10]; 3],
    pub skip: [u16; 2],
    pub y_mode_set: [u16; 4],
    pub y_mode_idx: [[u16; 8]; 3],
    pub y_mode_idx_offset: [[u16; 6]; 3],
    pub uv_mode: [[u16; 8]; 2],
    pub all_zero: [u16; 2],
}

impl DefaultTileCdfs {
    pub fn new() -> (d: Self)
        ensures
            d.partition_binary@ == PARTITION_BINARY_CDF@,
            d.partition_ctx[0]@ == PARTITION_CDF_CTX0@,
            d.partition_ctx[1]@ == PARTITION_CDF_CTX1@,
            d.partition_ctx[2]@ == PARTITION_CDF_CTX2@,
            d.skip@ == SKIP_CDF@,
            d.y_mode_set@ == Y_MODE_SET_CDF@,
            d.y_mode_idx[0]@ == Y_MODE_IDX_CDF_0@,
            d.y_mode_idx[1]@ == Y_MODE_IDX_CDF_1@,
            d.y_mode_idx[2]@ == Y_MODE_IDX_CDF_2@,
            d.y_mode_idx_offset[0]@ == Y_MODE_IDX_OFFSET_CDF_0@,
            d.y_mode_idx_offset[1]@ == Y_MODE_IDX_OFFSET_CDF_1@,
            d.y_mode_idx_offset[2]@ == Y_MODE_IDX_OFFSET_CDF_2@,
            d.uv_mode[0]@ == UV_MODE_CDF_0@,
            d.uv_mode[1]@ == UV_MODE_CDF_1@,
            d.all_zero@ == ALL_ZERO_CDF@,
    {
        DefaultTileCdfs {
            partition_binary: PARTITION_BINARY_CDF,
            partition_ctx: [PARTITION_CDF_CTX0, PARTITION_CDF_CTX1, PARTITION_CDF_CTX2],
            skip: SKIP_CDF,
            y_mode_set: Y_MODE_SET_CDF,
            y_mode_idx: [Y_MODE_IDX_CDF_0, Y_MODE_IDX_CDF_1, Y_MODE_IDX_CDF_2],
            y_mode_idx_offset: [Y_MODE_IDX_OFFSET_CDF_0, Y_MODE_IDX_OFFSET_CDF_1, Y_MODE_IDX_OFFSET_CDF_2],
            uv_mode: [UV_MODE_CDF_0, UV_MODE_CDF_1],
            all_zero: ALL_ZERO_CDF,
        }
    }
}

/// Adaptive per-tile CDF state.
#[derive(Debug, Clone, PartialEq, Eq)]
pub struct TileContext {
    pub updates_enabled: bool,
    pub partition_binary: CdfState<2>,
    pub partition_ctx: [CdfState<10>; 3],
    pub skip: CdfState<2>,
    pub y_mode_set: CdfState<4>,
    pub y_mode_idx: [CdfState<8>; 3],
    pub y_mode_idx_offset: [CdfState<6>; 3],
    pub uv_mode: [CdfState<8>; 2],
    pub all_zero: CdfState<2>,
}

/// Context index clamped to the last table.
pub open spec fn clamp_ctx(ctx: usize, last: usize) -> int {
    if ctx < last { ctx as int } else { last as int }
}

impl TileContext {
    pub open spec fn spec_updates_enabled(&self) -> bool {
        self.updates_enabled
    }

    /// The tile's tables equal the given defaults.
    pub open spec fn holds_defaults(&self, d: DefaultTileCdfs) -> bool {
        &&& self.partition_binary@ == d.partition_binary@
        &&& self.partition_ctx[0]@ == d.partition_ctx[0]@
        &&& self.partition_ctx[1]@ == d.partition_ctx[1]@
        &&& self.partition_ctx[2]@ == d.partition_ctx[2]@
        &&& self.skip@ == d.skip@
        &&& self.y_mode_set@ == d.y_mode_set@
        &&& self.y_mode_idx[0]@ == d.y_mode_idx[0]@
        &&& self.y_mode_idx[1]@ == d.y_mode_idx[1]@
        &&& self.y_mode_idx[2]@ == d.y_mode_idx[2]@
        &&& self.y_mode_idx_offset[0]@ == d.y_mode_idx_offset[0]@
        &&& self.y_mode_idx_offset[1]@ == d.y_mode_idx_offset[1]@
        &&& self.y_mode_idx_offset[2]@ == d.y_mode_idx_offset[2]@
        &&& self.uv_mode[0]@ == d.uv_mode[0]@
        &&& self.uv_mode[1]@ == d.uv_mode[1]@
        &&& self.all_zero@ == d.all_zero@
    }

    pub fn new_default() -> (t: Self)
        ensures
            t.spec_updates_enabled(),
            t.holds_defaults(DefaultTileCdfs::spec_default()),
    {
        Self::new(true)
    }

    pub fn new(updates_enabled: bool) -> (t: Self)
        ensures
            t.spec_updates_enabled() == updates_enabled,
            t.holds_defaults(DefaultTileCdfs::spec_default()),
    {
        Self::from_defaults(DefaultTileCdfs::new(), updates_enabled)
    }

    pub fn from_defaults(defaults: DefaultTileCdfs, updates_enabled: bool) -> (t: Self)
        ensures
            t.spec_updates_enabled() == updates_enabled,
            t.holds_defaults(defaults),
    {
        TileContext {
            updates_enabled,
            partition_binary: CdfState::new(defaults.partition_binary),
            partition_ctx: [
                CdfState::new(defaults.partition_ctx[0]),
                CdfState::new(defaults.partition_ctx[1]),
                CdfState::new(defaults.partition_ctx[2]),
            ],
            skip: CdfState::new(defaults.skip),
            y_mode_set: CdfState::new(defaults.y_mode_set),
            y_mode_idx: [
                CdfState::new(defaults.y_mode_idx[0]),
                CdfState::new(defaults.y_mode_idx[1]),
                CdfState::new(defaults.y_mode_idx[2]),
            ],
            y_mode_idx_offset: [
                CdfState::new(defaults.y_mode_idx_offset[0]),
                CdfState::new(defaults.y_mode_idx_offset[1]),
                CdfState::new(defaults.y_mode_idx_offset[2]),
            ],
            uv_mode: [CdfState::new(defaults.uv_mode[0]), CdfState::new(defaults.uv_mode[1])],
            all_zero: CdfState::new(defaults.all_zero),
        }
    }

    /// Restore every table to its default, keeping the update setting.
    pub fn reset_to_default(&mut self)
        ensures
            final(self).spec_updates_enabled() == old(self).spec_updates_enabled(),
            final(self).holds_defaults(DefaultTileCdfs::spec_default()),
    {
        let updates_enabled = self.updates_enabled;
        *self = Self::from_defaults(DefaultTileCdfs::new(), updates_enabled);
    }

    pub fn partition_cdf(&self, ctx: usize) -> (s: &[u16])
        ensures
            s@ == self.partition_ctx[clamp_ctx(ctx, 2)]@,
    {
        let i = if ctx < 2 { ctx } else { 2 };
        self.partition_ctx[i].as_slice()
    }

    pub fn updates_enabled(&self) -> (b: bool)
        ensures
            b == self.spec_updates_enabled(),
    {
        self.updates_enabled
    }

    pub fn update_skip(&mut self, symbol: usize)
        ensures
            final(self).skip@ == (if old(self).spec_updates_enabled() { spec_cdf_update(old(self).skip@, symbol as int) } else { old(self).skip@ }),
            *final(self) == (TileContext { skip: final(self).skip, ..*old(self) }),
    {
        if self.updates_enabled {
            self.skip.update(symbol);
        }
    }

    pub fn update_intra_mode(&mut self, symbol: usize)
        ensures
            final(self).y_mode_set@ == (if old(self).spec_updates_enabled() { spec_cdf_update(old(self).y_mode_set@, symbol as int) } else { old(self).y_mode_set@ }),
            *final(self) == (TileContext { y_mode_set: final(self).y_mode_set, ..*old(self) }),
    {
        if self.updates_enabled {
            self.y_mode_set.update(symbol);
        }
    }

    pub fn update_all_zero(&mut self, symbol: usize)
        ensures
            final(self).all_zero@ == (if old(self).spec_updates_enabled() { spec_cdf_update(old(self).all_zero@, symbol as int) } else { old(self).all_zero@ }),
            *final(self) == (TileContext { all_zero: final(self).all_zero, ..*old(self) }),
    {
        if self.updates_enabled {
            self.all_zero.update(symbol);
        }
    }

    pub fn update_y_mode_idx(&mut self, ctx: usize, symbol: usize)
        ensures
            final(self).y_mode_idx[clamp_ctx(ctx, 2)]@ == (if old(self).spec_updates_enabled() {
                spec_cdf_update(old(self).y_mode_idx[clamp_ctx(ctx, 2)]@, symbol as int)
            } else {
                old(self).y_mode_idx[clamp_ctx(ctx, 2)]@
            }),
            forall|i: int| 0 <= i < 3 && i != clamp_ctx(ctx, 2) ==> final(self).y_mode_idx[i] == old(self).y_mode_idx[i],
            *final(self) == (TileContext { y_mode_idx: final(self).y_mode_idx, ..*old(self) }),
    {
        if self.updates_enabled {
            let i = if ctx < 2 { ctx } else { 2 };
            let mut c = self.y_mode_idx[i];
            c.update(symbol);
            self.y_mode_idx[i] = c;
        }
    }

    pub fn update_y_mode_idx_offset(&mut self, ctx: usize, symbol: usize)
        ensures
            final(self).y_mode_idx_offset[clamp_ctx(ctx, 2)]@ == (if old(self).spec_updates_enabled() {
                spec_cdf_update(old(self).y_mode_idx_offset[clamp_ctx(ctx, 2)]@, symbol as int)
            } else {
                old(self).y_mode_idx_offset[clamp_ctx(ctx, 2)]@
            }),
            forall|i: int| 0 <= i < 3 && i != clamp_ctx(ctx, 2) ==> final(self).y_mode_idx_offset[i] == old(self).y_mode_idx_offset[i],
            *final(self) == (TileContext { y_mode_idx_offset: final(self).y_mode_idx_offset, ..*old(self) }),
    {
        if self.updates_enabled {
            let i = if ctx < 2 { ctx } else { 2 };
            let mut c = self.y_mode_idx_offset[i];
            c.update(symbol);
            self.y_mode_idx_offset[i] = c;
        }
    }

    pub fn update_uv_mode(&mut self, ctx: usize, symbol: usize)
        ensures
            final(self).uv_mode[clamp_ctx(ctx, 1)]@ == (if old(self).spec_updates_enabled() {
                spec_cdf_update(old(self).uv_mode[clamp_ctx(ctx, 1)]@, symbol as int)
            } else {
                old(self).uv_mode[clamp_ctx(ctx, 1)]@
            }),
            forall|i: int| 0 <= i < 2 && i != clamp_ctx(ctx, 1) ==> final(self).uv_mode[i] == old(self).uv_mode[i],
            *final(self) == (TileContext { uv_mode: final(self).uv_mode, ..*old(self) }),
    {
        if self.updates_enabled {
            let i = if ctx < 1 { ctx } else { 1 };
            let mut c = self.uv_mode[i];
            c.update(symbol);
            self.uv_mode[i] = c;
        }
    }
}

impl DefaultTileCdfs {
    /// The built-in default tables.
    pub open spec fn spec_default() -> DefaultTileCdfs {
        DefaultTileCdfs {
            partition_binary: PARTITION_BINARY_CDF,
            partition_ctx: [PARTITION_CDF_CTX0, PARTITION_CDF_CTX1, PARTITION_CDF_CTX2],
            skip: SKIP_CDF,
            y_mode_set: Y_MODE_SET_CDF,
            y_mode_idx: [Y_MODE_IDX_CDF_0, Y_MODE_IDX_CDF_1, Y_MODE_IDX_CDF_2],
            y_mode_idx_offset: [Y_MODE_IDX_OFFSET_CDF_0, Y_MODE_IDX_OFFSET_CDF_1, Y_MODE_IDX_OFFSET_CDF_2],
            uv_mode: [UV_MODE_CDF_0, UV_MODE_CDF_1],
            all_zero: ALL_ZERO_CDF,
        }
    }
}


/// The two partition choices that the walking skeleton codes for a block whose legal
/// partitions are `legal`: keep the block whole, or its preferred split.
pub open spec fn spec_runtime_variants(legal: Seq<PartitionType>) -> Seq<PartitionType> {
    if legal.contains(PartitionType::Split) {
        seq![PartitionType::NoSplit, PartitionType::Split]
    } else if legal.contains(PartitionType::Horz) && !legal.contains(PartitionType::Vert) {
        seq![PartitionType::NoSplit, PartitionType::Horz]
    } else if legal.contains(PartitionType::Vert) && !legal.contains(PartitionType::Horz) {
        seq![PartitionType::NoSplit, PartitionType::Vert]
    } else {
        seq![PartitionType::NoSplit, legal[1]]
    }
}

/// The runtime choice is defined: either a named split is legal or there is a second legal type.
pub open spec fn spec_runtime_defined(legal: Seq<PartitionType>) -> bool {
    legal.contains(PartitionType::Split) || legal.contains(PartitionType::Horz) || legal.contains(PartitionType::Vert)
        || legal.len() >= 2
}

pub fn contains_partition(v: &[PartitionType], p: PartitionType) -> (b: bool)
    ensures
        b == v@.contains(p),
{
    let mut i: usize = 0;
    while i < v.len()
        invariant
            i <= v@.len(),
            forall|j: int| 0 <= j < i ==> v@[j] != p,
        decreases v@.len() - i,
    {
        if v[i] == p {
            return true;
        }
        i = i + 1;
    }
    false
}

pub fn runtime_partition_variants(legal_variants: &[PartitionType]) -> (v: Vec<PartitionType>)
    requires
        spec_runtime_defined(legal_variants@),
    ensures
        v@ == spec_runtime_variants(legal_variants@),
{
    let has_split = contains_partition(legal_variants, PartitionType::Split);
    let has_horz = contains_partition(legal_variants, PartitionType::Horz);
    let has_vert = contains_partition(legal_variants, PartitionType::Vert);
    let v = if has_split {
        vec![PartitionType::NoSplit, PartitionType::Split]
    } else if has_horz && !has_vert {
        vec![PartitionType::NoSplit, PartitionType::Horz]
    } else if has_vert && !has_horz {
        vec![PartitionType::NoSplit, PartitionType::Vert]
    } else {
        vec![PartitionType::NoSplit, legal_variants[1]]
    };
    assert(v@ =~= spec_runtime_variants(legal_variants@));
    v
}

pub fn position_of(v: &[PartitionType], p: PartitionType) -> (r: Option<usize>)
    ensures
        match r {
            Some(i) => i < v@.len() && v@[i as int] == p && forall|j: int| 0 <= j < i ==> v@[j] != p,
            None => !v@.contains(p),
        },
{
    let mut i: usize = 0;
    while i < v.len()
        invariant
            i <= v@.len(),
            forall|j: int| 0 <= j < i ==> v@[j] != p,
        decreases v@.len() - i,
    {
        if v[i] == p {
            return Some(i);
        }
        i = i + 1;
    }
    None
}

/// Index of the first occurrence of `p` in `s`.
pub open spec fn spec_index_of(s: Seq<PartitionType>, p: PartitionType) -> int {
    choose|i: int| 0 <= i < s.len() && s[i] == p && forall|j: int| 0 <= j < i ==> s[j] != p
}

impl TileContext {
    /// Adapt the partition CDF for having coded `symbol` at a block of size `bsize`.
    pub fn update_partition(&mut self, bsize: BlockSize, ctx: usize, symbol: PartitionType)
        requires
            old(self).spec_updates_enabled() ==> spec_runtime_defined(spec_partition_variants(bsize)),
        ensures
            ({
                let runtime = spec_runtime_variants(spec_partition_variants(bsize));
                if old(self).spec_updates_enabled() && runtime.contains(symbol) {
                    final(self).partition_binary@ == spec_cdf_update(old(self).partition_binary@, spec_index_of(runtime, symbol))
                } else {
                    final(self).partition_binary == old(self).partition_binary
                }
            }),
            *final(self) == (TileContext { partition_binary: final(self).partition_binary, ..*old(self) }),
    {
        if !self.updates_enabled {
            return;
        }
        let legal = partition_variants(bsize);
        let runtime = runtime_partition_variants(legal.as_slice());
        match position_of(runtime.as_slice(), symbol) {
            Some(index) => {
                let ghost s = runtime@;
                assert(s.contains(symbol));
                let ghost k = spec_index_of(s, symbol);
                assert(0 <= k < s.len() && s[k] == symbol && forall|j: int| 0 <= j < k ==> s[j] != symbol);
                assert(k == index as int) by {
                    if k < index as int {
                    } else if k > index as int {
                    }
                };
                self.partition_binary.update(index);
            },
            None => {},
        }
    }
}

/// A CDF of `len` entries scaled from `base`: the first `len - 1` entries are scaled by
/// `len / base.len()` and clamped to `[1, 32766]`, and the last is 32767.
pub open spec fn spec_scaled_cdf(base: Seq<u16>, len: int) -> Seq<u16> {
    if len == base.len() {
        base
    } else {
        Seq::new(len as nat, |i: int| if i + 1 == len {
            32767u16
        } else {
            let q = (base[i] as int * len) / (base.len() as int);
            (if q < 1 { 1 } else if q > 32766 { 32766 } else { q }) as u16
        })
    }
}

pub fn partition_cdf_for_variants(base_cdf: &[u16], len: usize) -> (out: Vec<u16>)
    requires
        len <= base_cdf@.len(),
        base_cdf@.len() <= 0xffff,
    ensures
        out@ == spec_scaled_cdf(base_cdf@, len as int),
{
    if len == base_cdf.len() {
        return vstd::slice::slice_to_vec(base_cdf);
    }
    let mut out: Vec<u16> = Vec::new();
    let mut i: usize = 0;
    while i < len
        invariant
            i <= len,
            len < base_cdf@.len(),
            base_cdf@.len() <= 0xffff,
            out@ == spec_scaled_cdf(base_cdf@, len as int).take(i as int),
        decreases len - i,
    {
        if i + 1 == len {
            out.push(32767);
        } else {
            let b = base_cdf[i] as u32;
            assert(b * (len as u32) <= 0xffff * 0xffff) by (nonlinear_arith)
                requires b <= 0xffff, len <= 0xffff;
            let numerator = b * (len as u32);
            let denominator = base_cdf.len() as u32;
            let q = numerator / denominator;
            let clamped: u32 = if q < 1 { 1 } else if q > 32766 { 32766 } else { q };
            out.push(clamped as u16);
        }
        proof {
            assert(out@ =~= spec_scaled_cdf(base_cdf@, len as int).take(i + 1));
        }
        i = i + 1;
    }
    assert(spec_scaled_cdf(base_cdf@, len as int).take(len as int) =~= spec_scaled_cdf(base_cdf@, len as int));
    out
}

/// The little-endian bytes of a CDF's entries, in order.
pub open spec fn spec_cdf_bytes(s: Seq<u16>) -> Seq<u8>
    decreases s.len(),
{
    if s.len() == 0 {
        Seq::empty()
    } else {
        spec_cdf_bytes(s.drop_last()) + seq![(s.last() % 256) as u8, (s.last() / 256) as u8]
    }
}

/// The little-endian bytes of a CDF's entries, in order.
pub fn cdf_u16_bytes(cdf: &[u16]) -> (out: Vec<u8>)
    ensures
        out@ == spec_cdf_bytes(cdf@),
{
    let mut out: Vec<u8> = Vec::new();
    let mut i: usize = 0;
    while i < cdf.len()
        invariant
            i <= cdf@.len(),
            out@ == spec_cdf_bytes(cdf@.take(i as int)),
        decreases cdf@.len() - i,
    {
        let v = cdf[i];
        out.push((v % 256) as u8);
        out.push((v / 256) as u8);
        proof {
            assert(cdf@.take(i + 1).drop_last() =~= cdf@.take(i as int));
            assert(cdf@.take(i + 1).last() == v);
        }
        i = i + 1;
    }
    assert(cdf@.take(cdf@.len() as int) =~= cdf@);
    out
}

/// The bytes of every active default CDF table, in table order.
pub open spec fn spec_active_default_cdf_bytes() -> Seq<u8> {
    spec_cdf_bytes(PARTITION_BINARY_CDF@) + spec_cdf_bytes(PARTITION_CDF_CTX0@) + spec_cdf_bytes(PARTITION_CDF_CTX1@)
        + spec_cdf_bytes(PARTITION_CDF_CTX2@) + spec_cdf_bytes(SKIP_CDF@) + spec_cdf_bytes(Y_MODE_SET_CDF@)
        + spec_cdf_bytes(Y_MODE_IDX_CDF_0@) + spec_cdf_bytes(Y_MODE_IDX_CDF_1@) + spec_cdf_bytes(Y_MODE_IDX_CDF_2@)
        + spec_cdf_bytes(Y_MODE_IDX_OFFSET_CDF_0@) + spec_cdf_bytes(Y_MODE_IDX_OFFSET_CDF_1@)
        + spec_cdf_bytes(Y_MODE_IDX_OFFSET_CDF_2@) + spec_cdf_bytes(UV_MODE_CDF_0@) + spec_cdf_bytes(UV_MODE_CDF_1@)
        + spec_cdf_bytes(ALL_ZERO_CDF@)
}

fn append_bytes(out: &mut Vec<u8>, more: Vec<u8>)
    ensures
        final(out)@ == old(out)@ + more@,
{
    let mut i: usize = 0;
    let ghost start = out@;
    while i < more.len()
        invariant
            i <= more@.len(),
            out@ == start + more@.take(i as int),
        decreases more@.len() - i,
    {
        out.push(more[i]);
        proof {
            assert(more@.take(i + 1) =~= more@.take(i as int).push(more@[i as int]));
        }
        i = i + 1;
    }
    assert(more@.take(more@.len() as int) =~= more@);
}

/// The bytes of every active default CDF table, in table order.
pub fn active_default_cdf_bytes() -> (out: Vec<u8>)
    ensures
        out@ == spec_active_default_cdf_bytes(),
{
    let mut out: Vec<u8> = Vec::new();
    append_bytes(&mut out, cdf_u16_bytes(PARTITION_BINARY_CDF.as_slice()));
    append_bytes(&mut out, cdf_u16_bytes(PARTITION_CDF_CTX0.as_slice()));
    append_bytes(&mut out, cdf_u16_bytes(PARTITION_CDF_CTX1.as_slice()));
    append_bytes(&mut out, cdf_u16_bytes(PARTITION_CDF_CTX2.as_slice()));
    append_bytes(&mut out, cdf_u16_bytes(SKIP_CDF.as_slice()));
    append_bytes(&mut out, cdf_u16_bytes(Y_MODE_SET_CDF.as_slice()));
    append_bytes(&mut out, cdf_u16_bytes(Y_MODE_IDX_CDF_0.as_slice()));
    append_bytes(&mut out, cdf_u16_bytes(Y_MODE_IDX_CDF_1.as_slice()));
    append_bytes(&mut out, cdf_u16_bytes(Y_MODE_IDX_CDF_2.as_slice()));
    append_bytes(&mut out, cdf_u16_bytes(Y_MODE_IDX_OFFSET_CDF_0.as_slice()));
    append_bytes(&mut out, cdf_u16_bytes(Y_MODE_IDX_OFFSET_CDF_1.as_slice()));
    append_bytes(&mut out, cdf_u16_bytes(Y_MODE_IDX_OFFSET_CDF_2.as_slice()));
    append_bytes(&mut out, cdf_u16_bytes(UV_MODE_CDF_0.as_slice()));
    append_bytes(&mut out, cdf_u16_bytes(UV_MODE_CDF_1.as_slice()));
    append_bytes(&mut out, cdf_u16_bytes(ALL_ZERO_CDF.as_slice()));
    out
}

} // verus!
