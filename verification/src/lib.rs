//! The verified core of a TETRA base station.
//!
//! - [`bits`], [`bitbuffer`], [`pdu_parse_error`], [`typed_pdu_fields`]: reading and writing PDUs
//!   bit by bit, with their optional elements.
//! - [`mm`]: the authentication PDUs of mobility management, and the one-way authentication of
//!   terminals.
//! - [`cmce`]: bringing a terminal back into its call.
//! - [`tdma_time`], [`phy`]: the time of the air interface, and its sample counts.
//! - [`config`]: access control, keys and restart recovery as they are configured.
//! - [`crypto`]: combining cipher key components.
//! - [`net_dashboard`]: the check for updates.
//! - [`text`]: the handling of text that the others share.

use vstd::prelude::*;

pub mod bitbuffer;
pub mod bits;
pub mod cmce;
pub mod config;
pub mod crypto;
pub mod mm;
pub mod net_dashboard;
pub mod pdu_parse_error;
pub mod phy;
pub mod tdma_time;
pub mod text;
pub mod typed_pdu_fields;

verus! {

} // verus!
