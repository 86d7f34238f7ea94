//! The operator's dashboard.

use vstd::prelude::*;

pub mod json;
pub mod update_check;

verus! {

} // verus!
