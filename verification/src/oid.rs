//! Object ids.

use vstd::prelude::*;

verus! {

/// The 160 bits that name a Git object: the first 32 in `high`, the remaining
/// 128 in `low`.
#[derive(Clone, Copy, Debug, PartialEq, Eq, Structural, Hash)]
pub struct Oid {
    pub high: u32,
    pub low: u128,
}

} // verus!
