//! Tagged data that a cohort may carry beside its counts.

use vstd::prelude::*;
use crate::fixed::Fixed;

verus! {

/// One attribute of a cohort: a named share of its members, with a count and flags.
#[derive(Debug)]
pub struct AttributeData {
    pub ratio: Fixed,
    pub count: u64,
    pub flags: u64,
    pub name: String,
}

} // verus!
