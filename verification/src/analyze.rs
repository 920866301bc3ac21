//! The store analysis summary: the numbers one indexing pass over the
//! store gathers, and the figures derived from them. Gathering (directory
//! walks, closure queries, device lookup) happens outside and fills this
//! in; the derivations are here.
use vstd::prelude::*;

verus! {

/// What indexing the store yields: entry and derivation counts, the naive
/// and hardlink-deduplicated store sizes, derivation sizes, and — when
/// available — the journal size and the store's block device with its
/// capacity.
pub struct StoreAnalysis {
    /// How many entries the store holds.
    pub nstore_paths: usize,
    /// How many of them are derivation files.
    pub ndrv_paths: usize,
    /// How many entries the derivations' combined closure holds.
    pub ndrv_closure: usize,
    /// The store's size counting every file.
    pub store_size_naive: u64,
    /// The store's size counting each inode once.
    pub store_size_hl: u64,
    /// The deduplicated size of the derivation files.
    pub drv_size: u64,
    /// The deduplicated size of the derivations' combined closure.
    pub drv_closure_size: u64,
    /// The journal's size, when it was measured.
    pub journal_size: Option<u64>,
    /// The store's block device and its capacity in bytes, when found.
    pub blkdev_info: Option<(String, u64)>,
}

impl StoreAnalysis {
    /// The store size to report: the smaller of the two measurements,
    /// since deduplication can only shrink the total.
    pub fn store_size(&self) -> (r: u64)
        ensures
            r == if self.store_size_naive <= self.store_size_hl {
                self.store_size_naive
            } else {
                self.store_size_hl
            },
    {
        if self.store_size_naive <= self.store_size_hl {
            self.store_size_naive
        } else {
            self.store_size_hl
        }
    }
}

} // verus!
