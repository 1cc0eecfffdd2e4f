//! Dispatch of per-tile work.
use vstd::prelude::*;

verus! {

/// Runs a piece of work once per tile.
pub trait TileExecutor {
    /// Call `f` with each tile index `0..num_tiles`.
    fn for_each_tile<F: Fn(usize)>(&self, num_tiles: usize, f: F)
        requires
            forall|i: usize| i < num_tiles ==> f.requires((i,)),
    ;
}

/// Runs the tiles one after another, in index order.
#[derive(Debug, Clone, Copy)]
pub struct Sequential;

impl TileExecutor for Sequential {
    fn for_each_tile<F: Fn(usize)>(&self, num_tiles: usize, f: F) {
        let mut i: usize = 0;
        while i < num_tiles
            invariant
                i <= num_tiles,
                forall|j: usize| j < num_tiles ==> f.requires((j,)),
            decreases num_tiles - i,
        {
            f(i);
            i = i + 1;
        }
    }
}

} // verus!
