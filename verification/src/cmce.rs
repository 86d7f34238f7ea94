//! Circuit mode control: calls and their restoration.

use vstd::prelude::*;

pub mod calls;
pub mod restoration;

verus! {

} // verus!
