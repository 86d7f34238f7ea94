//! Mobility management.

use vstd::prelude::*;

pub mod authentication;
pub mod authentication_subtype;
pub mod d_authentication;
pub mod elements;
pub mod layout;
pub mod u_authentication;

verus! {

} // verus!
