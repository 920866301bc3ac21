//! The garbage-collection command's decisions: whether the store is big
//! enough or full enough to collect, and how much at most to free. The
//! collector run itself is an external operation judged by its exit code;
//! only the arithmetic that gates and bounds it lives here.
use vstd::prelude::*;

verus! {

/// Bytes per gibibyte.
pub const GIB: u64 = 1024 * 1024 * 1024;

/// The garbage-collection command's settings.
pub struct GCCommand {
    /// Ask before collecting.
    pub interactive: bool,
    /// The flag that overrides `interactive` on the command line.
    pub _non_interactive: bool,
    /// Only collect when the store exceeds this many gibibytes.
    pub bigger: Option<u64>,
    /// Only collect when the store uses more than this percentage of its
    /// device.
    pub quota: Option<u64>,
    /// Do not actually collect.
    pub dry_run: bool,
    /// Collect just enough to get back under the bound or quota.
    pub modest: bool,
}

impl GCCommand {
    /// Assemble the command's settings.
    pub fn new(interactive: bool, dry_run: bool, bigger: Option<u64>, quota: Option<u64>, modest:
        bool) -> (r: GCCommand)
        ensures
            r.interactive == interactive,
            r._non_interactive == !interactive,
            r.bigger == bigger,
            r.quota == quota,
            r.dry_run == dry_run,
            r.modest == modest,
    {
        GCCommand { interactive, _non_interactive: !interactive, bigger, quota, dry_run, modest }
    }

    /// Whether the store, at `size` bytes, exceeds a bound of `bigger`
    /// gibibytes.
    pub fn bigger_threshold_met(size: u64, bigger: u64) -> (r: bool)
        ensures
            r == (size > bigger * GIB),
    {
        proof {
            assert((bigger as int) * (GIB as int) <= (u64::MAX as int) * (GIB as int))
                by (nonlinear_arith)
                requires
                    bigger as int <= u64::MAX as int,
            ;
        }
        (size as u128) > (bigger as u128) * (GIB as u128)
    }

    /// The percentage of its device the store occupies, rounded down.
    pub fn quota_percentage(size: u64, blkdev_size: u64) -> (r: u64)
        requires
            blkdev_size > 0,
            size * 100 <= u64::MAX,
        ensures
            r == (size * 100) as u64 / blkdev_size,
    {
        size * 100 / blkdev_size
    }

    /// How many bytes at most the collector may free: with `modest`, just
    /// enough to get the store back to the configured bound or quota,
    /// which must have been found exceeded first; without, no limit.
    pub fn max_freed(&self, size: u64, blkdev_size: Option<u64>) -> (r: Result<Option<u64>, String>)
        requires
            (match self.bigger {
                Option::Some(b) => size >= b * GIB,
                Option::None => true,
            }),
            self.modest && self.bigger is None && self.quota is Some ==> blkdev_size is Some,
        ensures
            (match r {
                Result::Ok(limit) => {
                    &&& (match (self.modest, self.bigger, self.quota) {
                        (false, _, _) => limit is None,
                        (true, Option::Some(b), _) => limit == Option::Some(
                            (size - b * GIB) as u64,
                        ),
                        (true, Option::None, Option::Some(q)) => (match blkdev_size {
                            Option::Some(d) => limit == Option::Some(
                                (if size >= (q * d) as int / 100 {
                                    size - (q * d) as int / 100
                                } else {
                                    0int
                                }) as u64,
                            ),
                            Option::None => false,
                        }),
                        (true, Option::None, Option::None) => false,
                    })
                },
                Result::Err(e) => self.modest && self.bigger is None && self.quota is None && e@
                    == "Cannot use --modest without --bigger or --quota being"@,
            }),
    {
        if !self.modest {
            return Result::Ok(Option::None);
        }
        if let Option::Some(bigger) = self.bigger {
            proof {
                assert((bigger as int) * (GIB as int) <= (u64::MAX as int) * (GIB as int))
                    by (nonlinear_arith)
                    requires
                        bigger as int <= u64::MAX as int,
                ;
            }
            let bound = (bigger as u128) * (GIB as u128);
            let freed = (size as u128) - bound;
            return Result::Ok(Option::Some(freed as u64));
        }
        if let Option::Some(quota) = self.quota {
            if let Option::Some(dev) = blkdev_size {
                proof {
                    assert((quota as int) * (dev as int) <= (u64::MAX as int) * (u64::MAX as int))
                        by (nonlinear_arith)
                        requires
                            quota as int <= u64::MAX as int,
                            dev as int <= u64::MAX as int,
                    ;
                }
                let target = (quota as u128) * (dev as u128) / 100;
                let freed = if (size as u128) >= target {
                    ((size as u128) - target) as u64
                } else {
                    0
                };
                return Result::Ok(Option::Some(freed));
            }
        }
        Result::Err(String::from_str("Cannot use --modest without --bigger or --quota being"))
    }
}

} // verus!
