//! The station's configuration.

use vstd::prelude::*;

pub mod sec_recovery;
pub mod sec_security;

verus! {

} // verus!
