//! The single bits that announce optional elements.

use vstd::prelude::*;

use crate::bitbuffer::{BitBuffer, BitState};
use crate::bits;
use crate::pdu_parse_error::PduParseErr;

verus! {

/// Reading the delimiter called `name`: whether the next bit is set.
pub open spec fn flag(s: BitState, name: &'static str) -> (Result<bool, PduParseErr>, BitState) {
    if s.remaining() >= 1 {
        (Ok(s.bits[s.pos]), s.skip(1))
    } else {
        (Err(PduParseErr::BufferEnded { field: Some(name) }), s)
    }
}

/// Read the o-bit between type1 and type2/type3 elements
pub fn read_obit(buffer: &mut BitBuffer) -> (bit: Result<bool, PduParseErr>)
    ensures
        (bit, final(buffer)@) == flag(old(buffer)@, "obit"),
{
    read_flag(buffer, "obit")
}

/// Write the o-bit between type1 and type2/type3 elements
pub fn write_obit(buffer: &mut BitBuffer, val: u8)
    requires
        val <= 1,
        old(buffer)@.has_room(1),
    ensures
        final(buffer)@ == old(buffer)@.write(seq![val == 1]),
{
    buffer.write_bit(val);
}

/// Read a p-bit preceding a type2 element
pub fn read_pbit(buffer: &mut BitBuffer) -> (bit: Result<bool, PduParseErr>)
    ensures
        (bit, final(buffer)@) == flag(old(buffer)@, "pbit"),
{
    read_flag(buffer, "pbit")
}

/// Write the p-bit preceding a type2 element
pub fn write_pbit(buffer: &mut BitBuffer, val: u8)
    requires
        val <= 1,
        old(buffer)@.has_room(1),
    ensures
        final(buffer)@ == old(buffer)@.write(seq![val == 1]),
{
    buffer.write_bit(val);
}

/// Read an m-bit found before a type3 or type4 element, and trailing the message
pub fn read_mbit(buffer: &mut BitBuffer) -> (bit: Result<bool, PduParseErr>)
    ensures
        (bit, final(buffer)@) == flag(old(buffer)@, "mbit"),
{
    read_flag(buffer, "mbit")
}

/// Write the m-bit before a type3 or type4 element, and trailing the message
pub fn write_mbit(buffer: &mut BitBuffer, val: u8)
    requires
        val <= 1,
        old(buffer)@.has_room(1),
    ensures
        final(buffer)@ == old(buffer)@.write(seq![val == 1]),
{
    buffer.write_bit(val);
}

/// Read one bit as a flag.
pub(crate) fn read_flag(buffer: &mut BitBuffer, name: &'static str) -> (bit: Result<
    bool,
    PduParseErr,
>)
    ensures
        (bit, final(buffer)@) == flag(old(buffer)@, name),
{
    proof {
        use_type_invariant(&*buffer);
        if buffer@.remaining() >= 1 {
            bits::lemma_one_bit(buffer@.bits, buffer@.pos);
        }
    }
    match buffer.read_field(1, name) {
        Ok(value) => Ok(value == 1),
        Err(e) => Err(e),
    }
}

} // verus!
