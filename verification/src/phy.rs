//! The physical layer.

use vstd::prelude::*;

pub mod modem_common;

verus! {

} // verus!
