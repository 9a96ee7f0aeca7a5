//! What the index reports of its own progress, from the highest key of the
//! height-to-block-hash table.
use vstd::prelude::*;

verus! {

/// A block height.
#[derive(Debug, Clone, Copy, PartialEq, Eq, PartialOrd, Ord)]
pub struct Height(pub u32);

/// The height of the last indexed block, given the highest key of the
/// height-to-block-hash table; `None` when nothing is indexed.
pub fn height(highest: Option<u32>) -> (r: Option<Height>)
    ensures
        r == match highest {
            Some(h) => Some(Height(h)),
            None => None,
        },
{
    match highest {
        Some(h) => Some(Height(h)),
        None => None,
    }
}

/// The number of indexed blocks, given the highest key of the
/// height-to-block-hash table.
pub fn block_count(highest: Option<u32>) -> (r: u32)
    requires
        highest != Some(u32::MAX),
    ensures
        r == match highest {
            Some(h) => h + 1,
            None => 0,
        },
{
    match highest {
        Some(h) => h + 1,
        None => 0,
    }
}

} // verus!
