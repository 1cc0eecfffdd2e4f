//! Superblock partition tree shapes.
use vstd::prelude::*;

verus! {

/// Partition types of a block, in candidate order.
#[derive(Copy, Clone, Debug, Eq, PartialEq, Structural)]
pub enum PartitionType {
    NoSplit,
    Horz,
    Vert,
    Split,
    Horz3,
    Vert3,
    Horz4A,
    Horz4B,
    Vert4A,
    Vert4B,
}

#[derive(Copy, Clone, Debug, Eq, PartialEq, Structural)]
pub struct BlockSize {
    pub width: usize,
    pub height: usize,
}

/// A child block of a partition: its position and size.
pub type Child = (usize, usize, BlockSize);

impl BlockSize {
    /// The smallest block: 4x4.
    pub fn min() -> (b: BlockSize)
        ensures
            b.width == 4 && b.height == 4,
            b == Self::spec_min(),
    {
        BlockSize { width: 4, height: 4 }
    }

    /// The walking-skeleton superblock: 64x64.
    pub fn sb_m0() -> (b: BlockSize)
        ensures
            b.width == 64 && b.height == 64,
    {
        BlockSize { width: 64, height: 64 }
    }

    /// The smallest block: 4x4.
    pub open spec fn spec_min() -> BlockSize {
        BlockSize { width: 4, height: 4 }
    }

    pub open spec fn spec_is_min(self) -> bool {
        self.width == 4 && self.height == 4
    }

    pub fn is_min(self) -> (b: bool)
        ensures
            b == self.spec_is_min(),
    {
        self.width == 4 && self.height == 4
    }

    pub fn split(self) -> (r: Self)
        ensures
            r.width == self.width / 2,
            r.height == self.height / 2,
    {
        BlockSize { width: self.width / 2, height: self.height / 2 }
    }
}

pub open spec fn bs(width: int, height: int) -> BlockSize {
    BlockSize { width: width as usize, height: height as usize }
}

/// Child blocks of a `partition` of the block of size `b` at `(x, y)`, in coding order.
pub open spec fn spec_partition_children(x: int, y: int, b: BlockSize, partition: PartitionType) -> Seq<(int, int, BlockSize)> {
    let w = b.width as int;
    let h = b.height as int;
    match partition {
        PartitionType::NoSplit => seq![(x, y, b)],
        PartitionType::Split => {
            let c = bs(w / 2, h / 2);
            seq![(x, y, c), (x + w / 2, y, c), (x, y + h / 2, c), (x + w / 2, y + h / 2, c)]
        },
        PartitionType::Horz => {
            let c = bs(w, h / 2);
            seq![(x, y, c), (x, y + h / 2, c)]
        },
        PartitionType::Vert => {
            let c = bs(w / 2, h);
            seq![(x, y, c), (x + w / 2, y, c)]
        },
        PartitionType::Horz3 => seq![
            (x, y, bs(w, h / 4)),
            (x, y + h / 4, bs(w, h / 2)),
            (x, y + h / 4 + h / 2, bs(w, h / 4)),
        ],
        PartitionType::Vert3 => seq![
            (x, y, bs(w / 4, h)),
            (x + w / 4, y, bs(w / 2, h)),
            (x + w / 4 + w / 2, y, bs(w / 4, h)),
        ],
        PartitionType::Horz4A => {
            let u = h / 8;
            seq![(x, y, bs(w, u)), (x, y + u, bs(w, 2 * u)), (x, y + 3 * u, bs(w, 4 * u)), (x, y + 7 * u, bs(w, u))]
        },
        PartitionType::Horz4B => {
            let u = h / 8;
            seq![(x, y, bs(w, u)), (x, y + u, bs(w, 4 * u)), (x, y + 5 * u, bs(w, 2 * u)), (x, y + 7 * u, bs(w, u))]
        },
        PartitionType::Vert4A => {
            let u = w / 8;
            seq![(x, y, bs(u, h)), (x + u, y, bs(2 * u, h)), (x + 3 * u, y, bs(4 * u, h)), (x + 7 * u, y, bs(u, h))]
        },
        PartitionType::Vert4B => {
            let u = w / 8;
            seq![(x, y, bs(u, h)), (x + u, y, bs(4 * u, h)), (x + 5 * u, y, bs(2 * u, h)), (x + 7 * u, y, bs(u, h))]
        },
    }
}

/// Children as machine triples.
pub open spec fn children_view(v: Seq<Child>) -> Seq<(int, int, BlockSize)> {
    v.map_values(|c: Child| (c.0 as int, c.1 as int, c.2))
}

pub fn partition_children(x: usize, y: usize, bsize: BlockSize, partition: PartitionType) -> (res: Vec<Child>)
    requires
        x + bsize.width <= usize::MAX,
        y + bsize.height <= usize::MAX,
    ensures
        children_view(res@) == spec_partition_children(x as int, y as int, bsize, partition),
{
    let w = bsize.width;
    let h = bsize.height;
    let res = match partition {
        PartitionType::NoSplit => vec![(x, y, bsize)],
        PartitionType::Split => {
            let child = bsize.split();
            vec![
                (x, y, child),
                (x + child.width, y, child),
                (x, y + child.height, child),
                (x + child.width, y + child.height, child),
            ]
        },
        PartitionType::Horz => {
            let child = BlockSize { width: w, height: h / 2 };
            vec![(x, y, child), (x, y + child.height, child)]
        },
        PartitionType::Vert => {
            let child = BlockSize { width: w / 2, height: h };
            vec![(x, y, child), (x + child.width, y, child)]
        },
        PartitionType::Horz3 => {
            let top = BlockSize { width: w, height: h / 4 };
            let middle = BlockSize { width: w, height: h / 2 };
            vec![(x, y, top), (x, y + top.height, middle), (x, y + top.height + middle.height, top)]
        },
        PartitionType::Vert3 => {
            let left = BlockSize { width: w / 4, height: h };
            let middle = BlockSize { width: w / 2, height: h };
            vec![(x, y, left), (x + left.width, y, middle), (x + left.width + middle.width, y, left)]
        },
        PartitionType::Horz4A => {
            let unit = h / 8;
            let size0 = BlockSize { width: w, height: unit };
            let size1 = BlockSize { width: w, height: unit * 2 };
            let size2 = BlockSize { width: w, height: unit * 4 };
            vec![
                (x, y, size0),
                (x, y + size0.height, size1),
                (x, y + size0.height + size1.height, size2),
                (x, y + size0.height + size1.height + size2.height, size0),
            ]
        },
        PartitionType::Horz4B => {
            let unit = h / 8;
            let size0 = BlockSize { width: w, height: unit };
            let size1 = BlockSize { width: w, height: unit * 4 };
            let size2 = BlockSize { width: w, height: unit * 2 };
            vec![
                (x, y, size0),
                (x, y + size0.height, size1),
                (x, y + size0.height + size1.height, size2),
                (x, y + size0.height + size1.height + size2.height, size0),
            ]
        },
        PartitionType::Vert4A => {
            let unit = w / 8;
            let size0 = BlockSize { width: unit, height: h };
            let size1 = BlockSize { width: unit * 2, height: h };
            let size2 = BlockSize { width: unit * 4, height: h };
            vec![
                (x, y, size0),
                (x + size0.width, y, size1),
                (x + size0.width + size1.width, y, size2),
                (x + size0.width + size1.width + size2.width, y, size0),
            ]
        },
        PartitionType::Vert4B => {
            let unit = w / 8;
            let size0 = BlockSize { width: unit, height: h };
            let size1 = BlockSize { width: unit * 4, height: h };
            let size2 = BlockSize { width: unit * 2, height: h };
            vec![
                (x, y, size0),
                (x + size0.width, y, size1),
                (x + size0.width + size1.width, y, size2),
                (x + size0.width + size1.width + size2.width, y, size0),
            ]
        },
    };
    assert(children_view(res@) =~= spec_partition_children(x as int, y as int, bsize, partition));
    res
}


/// A child block is usable when both sides are at least four and it is smaller than its parent.
pub open spec fn spec_child_ok(parent: BlockSize, child: BlockSize) -> bool {
    child.width >= 4 && child.height >= 4 && (child.width < parent.width || child.height < parent.height)
}

/// A partition is legal when it keeps the block whole or every child is usable.
pub open spec fn spec_partition_is_legal(b: BlockSize, p: PartitionType) -> bool {
    p == PartitionType::NoSplit || forall|i: int|
        0 <= i < spec_partition_children(0, 0, b, p).len() ==> #[trigger] spec_child_ok(b, spec_partition_children(0, 0, b, p)[i].2)
}

/// Partition candidates for a block, in order: square blocks also admit the four-way asymmetric splits.
pub open spec fn spec_candidates(b: BlockSize) -> Seq<PartitionType> {
    if b.width == b.height {
        seq![
            PartitionType::NoSplit, PartitionType::Horz, PartitionType::Vert, PartitionType::Horz3, PartitionType::Vert3,
            PartitionType::Horz4A, PartitionType::Horz4B, PartitionType::Vert4A, PartitionType::Vert4B, PartitionType::Split,
        ]
    } else {
        seq![PartitionType::NoSplit, PartitionType::Horz, PartitionType::Vert, PartitionType::Horz3, PartitionType::Vert3, PartitionType::Split]
    }
}

/// The legal partitions of a block, in candidate order; the smallest block is never split.
pub open spec fn spec_partition_variants(b: BlockSize) -> Seq<PartitionType> {
    if b.spec_is_min() {
        seq![PartitionType::NoSplit]
    } else {
        spec_candidates(b).filter(|p: PartitionType| spec_partition_is_legal(b, p))
    }
}

pub fn partition_is_legal(bsize: BlockSize, partition: PartitionType) -> (b: bool)
    ensures
        b == spec_partition_is_legal(bsize, partition),
{
    if partition == PartitionType::NoSplit {
        return true;
    }
    let children = partition_children(0, 0, bsize, partition);
    let ghost sc = spec_partition_children(0, 0, bsize, partition);
    let mut i: usize = 0;
    while i < children.len()
        invariant
            i <= children@.len(),
            children_view(children@) == sc,
            sc == spec_partition_children(0, 0, bsize, partition),
            partition != PartitionType::NoSplit,
            forall|j: int| 0 <= j < i ==> #[trigger] spec_child_ok(bsize, sc[j].2),
        decreases children@.len() - i,
    {
        let child = children[i].2;
        assert(sc[i as int].2 == child);
        if !(child.width >= 4 && child.height >= 4 && (child.width < bsize.width || child.height < bsize.height)) {
            assert(!spec_child_ok(bsize, sc[i as int].2));
            assert(0 <= i < spec_partition_children(0, 0, bsize, partition).len());
            assert(!spec_partition_is_legal(bsize, partition));
            return false;
        }
        i = i + 1;
    }
    true
}

fn candidates(bsize: BlockSize) -> (v: Vec<PartitionType>)
    ensures
        v@ == spec_candidates(bsize),
{
    let v = if bsize.width == bsize.height {
        vec![
            PartitionType::NoSplit, PartitionType::Horz, PartitionType::Vert, PartitionType::Horz3, PartitionType::Vert3,
            PartitionType::Horz4A, PartitionType::Horz4B, PartitionType::Vert4A, PartitionType::Vert4B, PartitionType::Split,
        ]
    } else {
        vec![PartitionType::NoSplit, PartitionType::Horz, PartitionType::Vert, PartitionType::Horz3, PartitionType::Vert3, PartitionType::Split]
    };
    assert(v@ =~= spec_candidates(bsize));
    v
}

/// The legal partition types of a block, in candidate order.
pub fn partition_variants(bsize: BlockSize) -> (v: Vec<PartitionType>)
    ensures
        v@ == spec_partition_variants(bsize),
{
    if bsize.is_min() {
        let v = vec![PartitionType::NoSplit];
        assert(v@ =~= seq![PartitionType::NoSplit]);
        return v;
    }
    let cands = candidates(bsize);
    let ghost pred = |p: PartitionType| spec_partition_is_legal(bsize, p);
    let mut out: Vec<PartitionType> = Vec::new();
    let mut i: usize = 0;
    while i < cands.len()
        invariant
            i <= cands@.len(),
            cands@ == spec_candidates(bsize),
            out@ == cands@.take(i as int).filter(pred),
            pred == (|p: PartitionType| spec_partition_is_legal(bsize, p)),
        decreases cands@.len() - i,
    {
        reveal_with_fuel(Seq::<_>::filter, 1);
        let p = cands[i];
        let legal = partition_is_legal(bsize, p);
        assert(pred(p) == legal);
        if legal {
            out.push(p);
        }
        assert(cands@.take(i + 1).drop_last() =~= cands@.take(i as int));
        assert(cands@.take(i + 1).last() == p);
        i = i + 1;
    }
    assert(cands@.take(cands@.len() as int) =~= cands@);
    out
}

/// A child lies inside its parent, has sides of at least four, and is smaller.
pub open spec fn spec_child_inside(x: usize, y: usize, b: BlockSize, c: (int, int, BlockSize)) -> bool {
    &&& x <= c.0
    &&& y <= c.1
    &&& c.0 + c.2.width <= x + b.width
    &&& c.1 + c.2.height <= y + b.height
    &&& c.2.width + c.2.height < b.width + b.height
}

proof fn lemma_inside_horz(x: usize, y: usize, b: BlockSize)
    requires
        x + b.width <= usize::MAX,
        y + b.height <= usize::MAX,
        spec_partition_is_legal(b, PartitionType::Horz),
    ensures
        forall|i: int| 0 <= i < spec_partition_children(x as int, y as int, b, PartitionType::Horz).len() ==>
            spec_child_inside(x, y, b, #[trigger] spec_partition_children(x as int, y as int, b, PartitionType::Horz)[i]),
{
    let cs = spec_partition_children(x as int, y as int, b, PartitionType::Horz);
    let zs = spec_partition_children(0, 0, b, PartitionType::Horz);
    assert(spec_child_ok(b, zs[0].2));
    assert(spec_child_ok(b, zs[1].2));
    assert(spec_child_inside(x, y, b, cs[0]));
    assert(spec_child_inside(x, y, b, cs[1]));
    assert forall|i: int| 0 <= i < cs.len() implies spec_child_inside(x, y, b, #[trigger] cs[i]) by {
        if i == 0 {} else {}
    }
}

proof fn lemma_inside_vert(x: usize, y: usize, b: BlockSize)
    requires
        x + b.width <= usize::MAX,
        y + b.height <= usize::MAX,
        spec_partition_is_legal(b, PartitionType::Vert),
    ensures
        forall|i: int| 0 <= i < spec_partition_children(x as int, y as int, b, PartitionType::Vert).len() ==>
            spec_child_inside(x, y, b, #[trigger] spec_partition_children(x as int, y as int, b, PartitionType::Vert)[i]),
{
    let cs = spec_partition_children(x as int, y as int, b, PartitionType::Vert);
    let zs = spec_partition_children(0, 0, b, PartitionType::Vert);
    assert(spec_child_ok(b, zs[0].2));
    assert(spec_child_ok(b, zs[1].2));
    assert(spec_child_inside(x, y, b, cs[0]));
    assert(spec_child_inside(x, y, b, cs[1]));
    assert forall|i: int| 0 <= i < cs.len() implies spec_child_inside(x, y, b, #[trigger] cs[i]) by {
        if i == 0 {} else {}
    }
}

proof fn lemma_inside_split(x: usize, y: usize, b: BlockSize)
    requires
        x + b.width <= usize::MAX,
        y + b.height <= usize::MAX,
        spec_partition_is_legal(b, PartitionType::Split),
    ensures
        forall|i: int| 0 <= i < spec_partition_children(x as int, y as int, b, PartitionType::Split).len() ==>
            spec_child_inside(x, y, b, #[trigger] spec_partition_children(x as int, y as int, b, PartitionType::Split)[i]),
{
    let cs = spec_partition_children(x as int, y as int, b, PartitionType::Split);
    let zs = spec_partition_children(0, 0, b, PartitionType::Split);
    assert(spec_child_ok(b, zs[0].2));
    assert(spec_child_ok(b, zs[1].2));
    assert(spec_child_ok(b, zs[2].2));
    assert(spec_child_ok(b, zs[3].2));
    assert(spec_child_inside(x, y, b, cs[0]));
    assert(spec_child_inside(x, y, b, cs[1]));
    assert(spec_child_inside(x, y, b, cs[2]));
    assert(spec_child_inside(x, y, b, cs[3]));
    assert forall|i: int| 0 <= i < cs.len() implies spec_child_inside(x, y, b, #[trigger] cs[i]) by {
        if i == 0 {} else if i == 1 {} else if i == 2 {} else {}
    }
}

proof fn lemma_inside_horz3(x: usize, y: usize, b: BlockSize)
    requires
        x + b.width <= usize::MAX,
        y + b.height <= usize::MAX,
        spec_partition_is_legal(b, PartitionType::Horz3),
    ensures
        forall|i: int| 0 <= i < spec_partition_children(x as int, y as int, b, PartitionType::Horz3).len() ==>
            spec_child_inside(x, y, b, #[trigger] spec_partition_children(x as int, y as int, b, PartitionType::Horz3)[i]),
{
    let cs = spec_partition_children(x as int, y as int, b, PartitionType::Horz3);
    let zs = spec_partition_children(0, 0, b, PartitionType::Horz3);
    assert(spec_child_ok(b, zs[0].2));
    assert(spec_child_ok(b, zs[1].2));
    assert(spec_child_ok(b, zs[2].2));
    assert(spec_child_inside(x, y, b, cs[0]));
    assert(spec_child_inside(x, y, b, cs[1]));
    assert(spec_child_inside(x, y, b, cs[2]));
    assert forall|i: int| 0 <= i < cs.len() implies spec_child_inside(x, y, b, #[trigger] cs[i]) by {
        if i == 0 {} else if i == 1 {} else {}
    }
}

proof fn lemma_inside_vert3(x: usize, y: usize, b: BlockSize)
    requires
        x + b.width <= usize::MAX,
        y + b.height <= usize::MAX,
        spec_partition_is_legal(b, PartitionType::Vert3),
    ensures
        forall|i: int| 0 <= i < spec_partition_children(x as int, y as int, b, PartitionType::Vert3).len() ==>
            spec_child_inside(x, y, b, #[trigger] spec_partition_children(x as int, y as int, b, PartitionType::Vert3)[i]),
{
    let cs = spec_partition_children(x as int, y as int, b, PartitionType::Vert3);
    let zs = spec_partition_children(0, 0, b, PartitionType::Vert3);
    assert(spec_child_ok(b, zs[0].2));
    assert(spec_child_ok(b, zs[1].2));
    assert(spec_child_ok(b, zs[2].2));
    assert(spec_child_inside(x, y, b, cs[0]));
    assert(spec_child_inside(x, y, b, cs[1]));
    assert(spec_child_inside(x, y, b, cs[2]));
    assert forall|i: int| 0 <= i < cs.len() implies spec_child_inside(x, y, b, #[trigger] cs[i]) by {
        if i == 0 {} else if i == 1 {} else {}
    }
}

proof fn lemma_inside_horz4a(x: usize, y: usize, b: BlockSize)
    requires
        x + b.width <= usize::MAX,
        y + b.height <= usize::MAX,
        spec_partition_is_legal(b, PartitionType::Horz4A),
    ensures
        forall|i: int| 0 <= i < spec_partition_children(x as int, y as int, b, PartitionType::Horz4A).len() ==>
            spec_child_inside(x, y, b, #[trigger] spec_partition_children(x as int, y as int, b, PartitionType::Horz4A)[i]),
{
    let cs = spec_partition_children(x as int, y as int, b, PartitionType::Horz4A);
    let zs = spec_partition_children(0, 0, b, PartitionType::Horz4A);
    assert(spec_child_ok(b, zs[0].2));
    assert(spec_child_ok(b, zs[1].2));
    assert(spec_child_ok(b, zs[2].2));
    assert(spec_child_ok(b, zs[3].2));
    assert(spec_child_inside(x, y, b, cs[0]));
    assert(spec_child_inside(x, y, b, cs[1]));
    assert(spec_child_inside(x, y, b, cs[2]));
    assert(spec_child_inside(x, y, b, cs[3]));
    assert forall|i: int| 0 <= i < cs.len() implies spec_child_inside(x, y, b, #[trigger] cs[i]) by {
        if i == 0 {} else if i == 1 {} else if i == 2 {} else {}
    }
}

proof fn lemma_inside_horz4b(x: usize, y: usize, b: BlockSize)
    requires
        x + b.width <= usize::MAX,
        y + b.height <= usize::MAX,
        spec_partition_is_legal(b, PartitionType::Horz4B),
    ensures
        forall|i: int| 0 <= i < spec_partition_children(x as int, y as int, b, PartitionType::Horz4B).len() ==>
            spec_child_inside(x, y, b, #[trigger] spec_partition_children(x as int, y as int, b, PartitionType::Horz4B)[i]),
{
    let cs = spec_partition_children(x as int, y as int, b, PartitionType::Horz4B);
    let zs = spec_partition_children(0, 0, b, PartitionType::Horz4B);
    assert(spec_child_ok(b, zs[0].2));
    assert(spec_child_ok(b, zs[1].2));
    assert(spec_child_ok(b, zs[2].2));
    assert(spec_child_ok(b, zs[3].2));
    assert(spec_child_inside(x, y, b, cs[0]));
    assert(spec_child_inside(x, y, b, cs[1]));
    assert(spec_child_inside(x, y, b, cs[2]));
    assert(spec_child_inside(x, y, b, cs[3]));
    assert forall|i: int| 0 <= i < cs.len() implies spec_child_inside(x, y, b, #[trigger] cs[i]) by {
        if i == 0 {} else if i == 1 {} else if i == 2 {} else {}
    }
}

proof fn lemma_inside_vert4a(x: usize, y: usize, b: BlockSize)
    requires
        x + b.width <= usize::MAX,
        y + b.height <= usize::MAX,
        spec_partition_is_legal(b, PartitionType::Vert4A),
    ensures
        forall|i: int| 0 <= i < spec_partition_children(x as int, y as int, b, PartitionType::Vert4A).len() ==>
            spec_child_inside(x, y, b, #[trigger] spec_partition_children(x as int, y as int, b, PartitionType::Vert4A)[i]),
{
    let cs = spec_partition_children(x as int, y as int, b, PartitionType::Vert4A);
    let zs = spec_partition_children(0, 0, b, PartitionType::Vert4A);
    assert(spec_child_ok(b, zs[0].2));
    assert(spec_child_ok(b, zs[1].2));
    assert(spec_child_ok(b, zs[2].2));
    assert(spec_child_ok(b, zs[3].2));
    assert(spec_child_inside(x, y, b, cs[0]));
    assert(spec_child_inside(x, y, b, cs[1]));
    assert(spec_child_inside(x, y, b, cs[2]));
    assert(spec_child_inside(x, y, b, cs[3]));
    assert forall|i: int| 0 <= i < cs.len() implies spec_child_inside(x, y, b, #[trigger] cs[i]) by {
        if i == 0 {} else if i == 1 {} else if i == 2 {} else {}
    }
}

proof fn lemma_inside_vert4b(x: usize, y: usize, b: BlockSize)
    requires
        x + b.width <= usize::MAX,
        y + b.height <= usize::MAX,
        spec_partition_is_legal(b, PartitionType::Vert4B),
    ensures
        forall|i: int| 0 <= i < spec_partition_children(x as int, y as int, b, PartitionType::Vert4B).len() ==>
            spec_child_inside(x, y, b, #[trigger] spec_partition_children(x as int, y as int, b, PartitionType::Vert4B)[i]),
{
    let cs = spec_partition_children(x as int, y as int, b, PartitionType::Vert4B);
    let zs = spec_partition_children(0, 0, b, PartitionType::Vert4B);
    assert(spec_child_ok(b, zs[0].2));
    assert(spec_child_ok(b, zs[1].2));
    assert(spec_child_ok(b, zs[2].2));
    assert(spec_child_ok(b, zs[3].2));
    assert(spec_child_inside(x, y, b, cs[0]));
    assert(spec_child_inside(x, y, b, cs[1]));
    assert(spec_child_inside(x, y, b, cs[2]));
    assert(spec_child_inside(x, y, b, cs[3]));
    assert forall|i: int| 0 <= i < cs.len() implies spec_child_inside(x, y, b, #[trigger] cs[i]) by {
        if i == 0 {} else if i == 1 {} else if i == 2 {} else {}
    }
}

/// The children of a legal split lie inside the block and are smaller than it.
pub proof fn lemma_children_inside(x: usize, y: usize, b: BlockSize, p: PartitionType)
    requires
        x + b.width <= usize::MAX,
        y + b.height <= usize::MAX,
        spec_partition_is_legal(b, p),
        p != PartitionType::NoSplit,
    ensures
        forall|i: int| 0 <= i < spec_partition_children(x as int, y as int, b, p).len() ==>
            spec_child_inside(x, y, b, #[trigger] spec_partition_children(x as int, y as int, b, p)[i]),
{
    match p {
        PartitionType::NoSplit => {},
        PartitionType::Horz => lemma_inside_horz(x, y, b),
        PartitionType::Vert => lemma_inside_vert(x, y, b),
        PartitionType::Split => lemma_inside_split(x, y, b),
        PartitionType::Horz3 => lemma_inside_horz3(x, y, b),
        PartitionType::Vert3 => lemma_inside_vert3(x, y, b),
        PartitionType::Horz4A => lemma_inside_horz4a(x, y, b),
        PartitionType::Horz4B => lemma_inside_horz4b(x, y, b),
        PartitionType::Vert4A => lemma_inside_vert4a(x, y, b),
        PartitionType::Vert4B => lemma_inside_vert4b(x, y, b),
    }
}

/// A leaf of a partition walk: its position, size and the partition it was coded with.
pub type WalkLeaf = (usize, usize, BlockSize, PartitionType);

/// The leaf lies inside the block of size `b` at `(x, y)` and was kept whole.
pub open spec fn spec_leaf_inside(x: usize, y: usize, b: BlockSize, leaf: WalkLeaf) -> bool {
    &&& x <= leaf.0
    &&& y <= leaf.1
    &&& leaf.0 + leaf.2.width <= x + b.width
    &&& leaf.1 + leaf.2.height <= y + b.height
    &&& leaf.3 == PartitionType::NoSplit
}

/// The walks of the block of size `b` at `(x, y)` that the decisions of `decide` allow: the
/// smallest block is one leaf; any other block takes a partition that `decide` may return for
/// it, and is one leaf when kept whole, else the walks of its children joined in coding order.
pub open spec fn spec_walk<D, E>(x: usize, y: usize, b: BlockSize, decide: D, leaves: Seq<WalkLeaf>) -> bool
    where
        D: Fn(usize, usize, BlockSize) -> Result<PartitionType, E>,
    decreases b.width + b.height,
{
    if b.spec_is_min() {
        leaves == seq![(x, y, b, PartitionType::NoSplit)]
    } else {
        exists|p: PartitionType|
            #[trigger] decide.ensures((x, y, b), Ok::<PartitionType, E>(p)) && if p == PartitionType::NoSplit {
                leaves == seq![(x, y, b, PartitionType::NoSplit)]
            } else {
                exists|parts: Seq<Seq<WalkLeaf>>|
                    #[trigger] parts.flatten() == leaves && parts.len() == spec_partition_children(x as int, y as int, b, p).len()
                        && forall|i: int|
                        0 <= i < parts.len() ==> {
                            let c = spec_partition_children(x as int, y as int, b, p)[i];
                            spec_child_inside(x, y, b, c) && spec_walk(c.0 as usize, c.1 as usize, c.2, decide, #[trigger] parts[i])
                        }
            }
    }
}

/// The walk of the block of size `b` at `(x, y)` stops with `e`: a decision on the way returns
/// `e`, after the children before it were walked in coding order.
pub open spec fn spec_walk_fails<D, E>(x: usize, y: usize, b: BlockSize, decide: D, e: E) -> bool
    where
        D: Fn(usize, usize, BlockSize) -> Result<PartitionType, E>,
    decreases b.width + b.height,
{
    !b.spec_is_min() && (decide.ensures((x, y, b), Err::<PartitionType, E>(e)) || exists|p: PartitionType|
        #[trigger] decide.ensures((x, y, b), Ok::<PartitionType, E>(p)) && p != PartitionType::NoSplit && exists|
            parts: Seq<Seq<WalkLeaf>>,
        |
            #![trigger parts.flatten()]
            parts.len() < spec_partition_children(x as int, y as int, b, p).len() && (forall|i: int|
                0 <= i < parts.len() ==> {
                    let c = spec_partition_children(x as int, y as int, b, p)[i];
                    spec_child_inside(x, y, b, c) && spec_walk(c.0 as usize, c.1 as usize, c.2, decide, #[trigger] parts[i])
                }) && {
                let c = spec_partition_children(x as int, y as int, b, p)[parts.len() as int];
                spec_child_inside(x, y, b, c) && spec_walk_fails(c.0 as usize, c.1 as usize, c.2, decide, e)
            })
}

/// Walk the partition tree of the block of size `bsize` at `(x, y)`: the smallest block is a
/// leaf; otherwise `decide_partition` picks the partition, a whole block is a leaf, and a split
/// block's children are walked in coding order. Returns the leaves in visiting order, or the
/// first error a decision reports.
pub fn walk_partition_tree<D, E>(x: usize, y: usize, bsize: BlockSize, decide_partition: &D) -> (r: Result<Vec<WalkLeaf>, E>)
    where
        D: Fn(usize, usize, BlockSize) -> Result<PartitionType, E>,
    requires
        x + bsize.width <= usize::MAX,
        y + bsize.height <= usize::MAX,
        forall|a: usize, c: usize, b: BlockSize| #[trigger] decide_partition.requires((a, c, b)),
        forall|a: usize, c: usize, b: BlockSize, res: Result<PartitionType, E>|
            #[trigger] decide_partition.ensures((a, c, b), res) ==> (res matches Ok(p) ==> spec_partition_is_legal(b, p)),
    ensures
        match r {
            Ok(leaves) => spec_walk(x, y, bsize, *decide_partition, leaves@),
            Err(e) => spec_walk_fails(x, y, bsize, *decide_partition, e),
        },
        r matches Ok(leaves) ==> forall|i: int| 0 <= i < leaves@.len() ==> spec_leaf_inside(x, y, bsize, #[trigger] leaves@[i]),
        r matches Ok(leaves) ==> bsize.spec_is_min() ==> leaves@ == seq![(x, y, bsize, PartitionType::NoSplit)],
    decreases bsize.width + bsize.height,
{
    let partition = if bsize.is_min() {
        PartitionType::NoSplit
    } else {
        match decide_partition(x, y, bsize) {
            Ok(p) => p,
            Err(e) => {
                return Err(e);
            },
        }
    };
    if partition == PartitionType::NoSplit || bsize.is_min() {
        let mut leaves: Vec<WalkLeaf> = Vec::new();
        leaves.push((x, y, bsize, PartitionType::NoSplit));
        assert(leaves@ =~= seq![(x, y, bsize, PartitionType::NoSplit)]);
        return Ok(leaves);
    }
    proof {
        lemma_children_inside(x, y, bsize, partition);
    }
    let children = partition_children(x, y, bsize, partition);
    let ghost cs = spec_partition_children(x as int, y as int, bsize, partition);
    let ghost d = *decide_partition;
    let mut leaves: Vec<WalkLeaf> = Vec::new();
    let ghost mut parts: Seq<Seq<WalkLeaf>> = Seq::empty();
    let mut i: usize = 0;
    while i < children.len()
        invariant
            i <= children@.len(),
            children_view(children@) == cs,
            cs == spec_partition_children(x as int, y as int, bsize, partition),
            d == *decide_partition,
            !bsize.spec_is_min(),
            partition != PartitionType::NoSplit,
            d.ensures((x, y, bsize), Ok::<PartitionType, E>(partition)),
            forall|j: int| 0 <= j < cs.len() ==> spec_child_inside(x, y, bsize, #[trigger] cs[j]),
            forall|a: usize, c: usize, b: BlockSize| #[trigger] decide_partition.requires((a, c, b)),
            forall|a: usize, c: usize, b: BlockSize, res: Result<PartitionType, E>|
                #[trigger] decide_partition.ensures((a, c, b), res) ==> (res matches Ok(p) ==> spec_partition_is_legal(b, p)),
            forall|k: int| 0 <= k < leaves@.len() ==> spec_leaf_inside(x, y, bsize, #[trigger] leaves@[k]),
            parts.len() == i,
            parts.flatten() == leaves@,
            forall|j: int|
                0 <= j < parts.len() ==> {
                    let c = cs[j];
                    spec_child_inside(x, y, bsize, c) && spec_walk(c.0 as usize, c.1 as usize, c.2, d, #[trigger] parts[j])
                },
            x + bsize.width <= usize::MAX,
            y + bsize.height <= usize::MAX,
        decreases children@.len() - i,
    {
        let (cx, cy, csize) = children[i];
        assert(cs[i as int] == (cx as int, cy as int, csize));
        let mut sub = match walk_partition_tree(cx, cy, csize, decide_partition) {
            Ok(sub) => sub,
            Err(e) => {
                proof {
                    let c = cs[i as int];
                    assert(c.0 as usize == cx && c.1 as usize == cy && c.2 == csize);
                    assert(spec_walk_fails(x, y, bsize, d, e));
                }
                return Err(e);
            },
        };
        let ghost sub_view = sub@;
        proof {
            assert forall|j: int| 0 <= j < sub_view.len() implies spec_leaf_inside(x, y, bsize, #[trigger] sub_view[j]) by {
                assert(spec_leaf_inside(cx, cy, csize, sub_view[j]));
            }
        }
        let ghost before = leaves@;
        leaves.append(&mut sub);
        proof {
            parts.lemma_flatten_push(sub_view);
            parts = parts.push(sub_view);
            assert(leaves@ == before + sub_view);
            assert forall|k: int| 0 <= k < leaves@.len() implies spec_leaf_inside(x, y, bsize, #[trigger] leaves@[k]) by {
                if k >= before.len() {
                    assert(leaves@[k] == sub_view[k - before.len()]);
                }
            }
        }
        i = i + 1;
    }
    proof {
        assert(parts.flatten() == leaves@);
        assert(spec_walk(x, y, bsize, d, leaves@));
    }
    Ok(leaves)
}

} // verus!
