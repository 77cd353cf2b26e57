//! Paint-dirtiness tracking.
//!
//! The render cache remembers which blocks changed since the last paint.
//! Once the dirty fraction of all blocks exceeds the configured threshold
//! it reports that everything should be repainted, trading precision for
//! cheap bookkeeping under heavy change.

use vstd::prelude::*;
use std::collections::HashSet;

verus! {

/// Tracks the block identities dirtied since the last paint.
#[derive(Debug)]
pub struct RenderCache {
    dirty_blocks: HashSet<u64>,
    dirty_threshold_permille: u64,
}

impl RenderCache {
    /// The identities currently marked dirty.
    pub closed spec fn dirty(&self) -> Set<u64> {
        self.dirty_blocks@
    }

    /// The dirty-fraction threshold, in thousandths.
    pub closed spec fn threshold_permille(&self) -> u64 {
        self.dirty_threshold_permille
    }

    /// A fresh tracker at the standard five-percent threshold.
    pub fn new() -> (r: RenderCache)
        ensures
            r.dirty() =~= Set::<u64>::empty(),
            r.threshold_permille() == 50,
    {
        RenderCache { dirty_blocks: HashSet::new(), dirty_threshold_permille: 50 }
    }

    /// Marks one block dirty.
    pub fn mark_dirty(&mut self, id: u64)
        ensures
            final(self).dirty() == old(self).dirty().insert(id),
            final(self).threshold_permille() == old(self).threshold_permille(),
    {
        let _ = self.dirty_blocks.insert(id);
    }

    /// Forgets all dirtiness, after a paint.
    pub fn clear(&mut self)
        ensures
            final(self).dirty() =~= Set::<u64>::empty(),
            final(self).threshold_permille() == old(self).threshold_permille(),
    {
        self.dirty_blocks.clear();
    }

    /// How many blocks are currently dirty.
    pub fn dirty_count(&self) -> (r: usize)
        ensures
            r == self.dirty().len(),
    {
        self.dirty_blocks.len()
    }

    /// Whether one block is marked dirty.
    pub fn is_dirty(&self, id: u64) -> (r: bool)
        ensures
            r == self.dirty().contains(id),
    {
        self.dirty_blocks.contains(&id)
    }

    /// Whether a block should be repainted: with nothing tracked as dirty
    /// everything renders; while the dirty fraction stays at or below the
    /// threshold only dirty blocks render; above it everything renders.
    pub fn should_render(&self, id: u64, total_blocks: usize) -> (r: bool)
        ensures
            r == if total_blocks == 0 || self.dirty().len() == 0 {
                true
            } else if self.dirty().len() * 1000 <= self.threshold_permille() * total_blocks {
                self.dirty().contains(id)
            } else {
                true
            },
    {
        let dirty_len = self.dirty_blocks.len();
        if total_blocks == 0 || dirty_len == 0 {
            return true;
        }
        let dl = dirty_len as u128;
        let th = self.dirty_threshold_permille as u128;
        let tb = total_blocks as u128;
        proof {
            assert(dl * 1000 <= 0xffffffffffffffff * 1000) by (nonlinear_arith)
                requires
                    dl <= 0xffffffffffffffff,
            ;
            assert(th * tb <= 0xffffffffffffffff * 0xffffffffffffffff) by (nonlinear_arith)
                requires
                    th <= 0xffffffffffffffff && tb <= 0xffffffffffffffff,
            ;
        }
        if dl * 1000 <= th * tb {
            return self.is_dirty(id);
        }
        true
    }
}

} // verus!
