//! Optional elements of MLE, CMCE, MM and SNDCP PDUs.
//!
//! A PDU ends in an O-bit, which says whether any optional element follows. Each type 2 element
//! that the PDU may have is then announced by a P-bit of its own. Type 3 and type 4 elements are
//! announced by an M-bit and carry an identifier and a length; an M-bit of 0 ends the PDU.

use vstd::prelude::*;

use crate::text;

pub mod delimiters;
pub mod laws;
pub mod typed;

verus! {

/// A type 4 element whose contents are not decoded.
#[derive(Debug, PartialEq, Eq)]
pub struct Type4FieldGeneric {
    pub field_id: u64,
    pub len: usize,
    pub elems: usize,
    /// Up to 64 bits of data (later bits are discarded)
    pub data: u64,
}

/// A type 3 element whose contents are not decoded.
#[derive(Debug, PartialEq, Eq)]
pub struct Type3FieldGeneric {
    pub field_id: u64,
    pub len: usize,
    /// Up to 128 bits of data (later bits are discarded).
    /// Sized to fit External Subscriber Number (up to 96 bits = 24 BCD digits)
    /// and any future long IEs without further refactor.
    pub data: u128,
}

impl Type3FieldGeneric {
    /// The element as a log shows it.
    pub open spec fn shown(self) -> Seq<char> {
        "Type3FieldGeneric { field_id: "@ + text::decimal(self.field_id as nat) + ", len: "@
            + text::decimal(self.len as nat) + ", data: "@ + text::decimal(self.data as nat) + " }"@
    }

    /// Append the element as a log shows it.
    fn push_shown(&self, text: &mut String)
        ensures
            final(text)@ == old(text)@ + self.shown(),
    {
        let ghost before = text@;
        text.append("Type3FieldGeneric { field_id: ");
        text::push_decimal(text, self.field_id as u128);
        text.append(", len: ");
        text::push_decimal(text, self.len as u128);
        text.append(", data: ");
        text::push_decimal(text, self.data);
        text.append(" }");
        assert(text@ =~= before + self.shown());
    }
}

/// An element that may be missing, as a log shows it.
pub open spec fn shown_element(field: Option<Type3FieldGeneric>) -> Seq<char> {
    text::option_text(
        match field {
            Some(f) => Some(f.shown()),
            None => None,
        },
    )
}

/// Append an element that may be missing.
pub fn push_shown_element(text: &mut String, field: &Option<Type3FieldGeneric>)
    ensures
        final(text)@ == old(text)@ + shown_element(*field),
{
    let ghost before = text@;
    match field {
        Some(f) => {
            text.append("Some(");
            f.push_shown(text);
            text.append(")");
        },
        None => {
            text.append("None");
        },
    }
    assert(text@ =~= before + shown_element(*field));
}

/// An element is shown by its identifier, its length and its data in decimal notation; a missing one
/// as missing.
pub proof fn law_elements_are_shown_by_their_numbers(field: Type3FieldGeneric)
    ensures
        shown_element(None) == "None"@,
        shown_element(Some(field)) == "Some("@ + ("Type3FieldGeneric { field_id: "@ + text::decimal(
            field.field_id as nat,
        ) + ", len: "@ + text::decimal(field.len as nat) + ", data: "@ + text::decimal(
            field.data as nat,
        ) + " }"@) + ")"@,
        forall|t: &mut String, f: Option<Type3FieldGeneric>, r: ()| #[trigger]
            call_ensures(push_shown_element, (t, &f), r) ==> final(t)@ == t@ + shown_element(f),
{
}

} // verus!
