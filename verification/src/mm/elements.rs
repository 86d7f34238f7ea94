//! What the authentication PDUs of both directions have in common.

use vstd::arithmetic::power2::*;
use vstd::prelude::*;

use crate::bitbuffer;
use crate::bitbuffer::{BitBuffer, BitState};
use crate::bits;
use crate::pdu_parse_error::PduParseErr;
use crate::typed_pdu_fields::laws;
use crate::typed_pdu_fields::{delimiters, typed, Type3FieldGeneric};

verus! {

/// The PDU type of U-AUTHENTICATION among the uplink MM PDUs.
pub const U_AUTHENTICATION: u64 = 0;

/// The PDU type of D-AUTHENTICATION among the downlink MM PDUs.
pub const D_AUTHENTICATION: u64 = 1;

/// The identifier of the Proprietary type 3 element in MM PDUs of both directions.
pub const PROPRIETARY: u64 = 15;

/// The number that is sent for a value that may be missing.
pub open spec fn or_zero(value: Option<u64>) -> nat {
    match value {
        Some(v) => v as nat,
        None => 0,
    }
}

/// The number that is sent for a long value that may be missing.
pub open spec fn long_or_zero(value: Option<u128>) -> u128 {
    match value {
        Some(v) => v,
        None => 0,
    }
}

/// The number that is sent for a reject reason that may be missing.
pub open spec fn reason_or_zero(value: Option<u8>) -> u8 {
    match value {
        Some(v) => v,
        None => 0,
    }
}

/// A value that may be missing, as a wider number.
pub open spec fn widened(value: Option<u64>) -> Option<u128> {
    match value {
        Some(v) => Some(v as u128),
        None => None,
    }
}

/// A reject reason that may be missing, as a wider number.
pub open spec fn widened_u8(value: Option<u8>) -> Option<u128> {
    match value {
        Some(v) => Some(v as u128),
        None => None,
    }
}

/// The low 80 bits of a number: what an 80-bit field can hold of it.
pub open spec fn low_80(value: u128) -> u128 {
    (value % 0x1_0000_0000_0000_0000_0000) as u128
}

/// An 80-bit field, which is read in two steps: 16 bits and 64 bits.
pub open spec fn field_80(s: BitState, name: &'static str) -> (
    Result<u128, PduParseErr>,
    BitState,
) {
    if s.remaining() < 16 {
        (Err(typed::ended(name)), s)
    } else if s.remaining() < 80 {
        (Err(typed::ended(name)), s.skip(16))
    } else {
        (Ok(s.value(80) as u128), s.skip(80))
    }
}

/// Read an 80-bit field as u128 (a single read gives at most 64 bits).
pub fn read_field_80(buffer: &mut BitBuffer, field_name: &'static str) -> (value: Result<
    u128,
    PduParseErr,
>)
    ensures
        (value, final(buffer)@) == field_80(old(buffer)@, field_name),
        value matches Ok(v) ==> v == old(buffer)@.value(80),
{
    let ghost start = buffer@;
    proof {
        use_type_invariant(&*buffer);
    }
    let hi: u64 = match buffer.read_field(16, field_name) {
        Err(e) => return Err(e),
        Ok(x) => x,
    };
    let lo: u64 = match buffer.read_field(64, field_name) {
        Err(e) => return Err(e),
        Ok(x) => x,
    };
    proof {
        typed::lemma_two_reads(start, 16, hi, lo);
        typed::lemma_value_fits(start, 80);
    }
    Ok(((hi as u128) << 64) | (lo as u128))
}

/// Write an 80-bit field from a u128 (only the low 80 bits are used).
pub fn write_field_80(buffer: &mut BitBuffer, value: u128)
    requires
        old(buffer)@.has_room(80),
    ensures
        final(buffer)@ == old(buffer)@.write_value(value as nat, 80),
{
    let hi: u64 = ((value >> 64) & 0xFFFF) as u64;
    let lo: u64 = (value & 0xFFFF_FFFF_FFFF_FFFF) as u64;
    proof {
        use_type_invariant(&*buffer);
        lemma2_to64();
        lemma2_to64_rest();
        lemma_pow2_80();
        assert(((value >> 64) & 0xFFFFu128) as u64 as u128 * 0x1_0000_0000_0000_0000u128 + (value
            & 0xFFFF_FFFF_FFFF_FFFFu128) as u64 as u128 == value % 0x1_0000_0000_0000_0000_0000u128)
            by (bit_vector);
        assert(((value >> 64) & 0xFFFFu128) as u64 <= 0xFFFF) by (bit_vector);
        bits::lemma_value_bits_low(value as nat, 80, 80);
        bits::lemma_value_bits_concat(hi as nat, 16, lo as nat, 64);
        bits::lemma_value_bits_len(hi as nat, 16);
        bitbuffer::lemma_write_twice(
            buffer@,
            bits::value_bits(hi as nat, 16),
            bits::value_bits(lo as nat, 64),
        );
    }
    buffer.write_bits(hi, 16);
    buffer.write_bits(lo, 64);
}

pub proof fn lemma_pow2_80()
    ensures
        pow2(80) == 0x1_0000_0000_0000_0000_0000,
{
    lemma2_to64();
    lemma2_to64_rest();
    lemma_pow2_adds(16, 64);
}

/// An 80-bit field is read as the low 80 bits of the number that was written.
pub proof fn law_field_80_read_back(s: BitState, value: u128, name: &'static str)
    requires
        s.well_formed(),
        s.next_is(bits::value_bits(value as nat, 80)),
    ensures
        field_80(s, name) == (Ok::<_, PduParseErr>(low_80(value)), s.skip(80)),
        bits::value_bits(value as nat, 80).len() == 80,
{
    lemma_pow2_80();
    bits::lemma_value_bits_len(value as nat, 80);
    bits::lemma_value_bits_low(value as nat, 80, 80);
    bitbuffer::lemma_value_is_next(s, low_80(value) as nat, 80);
}

/// The bits of an 80-bit field are those of its number.
pub proof fn lemma_field_80_written_back(s: BitState)
    requires
        s.well_formed(),
        s.remaining() >= 80,
    ensures
        s.value(80) <= u128::MAX,
        s.next_is(bits::value_bits(s.value(80), 80)),
        bits::value_bits(s.value(80), 80).len() == 80,
{
    typed::lemma_value_fits(s, 80);
    bitbuffer::lemma_next_is_value(s, 80);
    bits::lemma_value_bits_len(s.value(80), 80);
}

/// The end of a PDU: the Proprietary element, which may be missing, and the M-bit of 0 behind it.
/// Without an O-bit there is neither.
pub open spec fn proprietary_and_end(obit: bool, s: BitState) -> (
    Result<Option<Type3FieldGeneric>, PduParseErr>,
    BitState,
) {
    match typed::type3_generic(obit, s, PROPRIETARY) {
        (Err(e), t) => (Err(e), t),
        (Ok(field), t) => if !obit {
            (Ok(field), t)
        } else {
            match delimiters::flag(t, "trailing_obit") {
                (Err(e), u) => (Err(e), u),
                (Ok(true), u) => (Err(PduParseErr::InvalidTrailingMbitValue), u),
                (Ok(false), u) => (Ok(field), u),
            }
        },
    }
}

/// The end of a PDU as it is sent behind an O-bit of 1.
pub open spec fn proprietary_and_end_bits(field: Option<Type3FieldGeneric>) -> Seq<bool> {
    match field {
        None => seq![false],
        Some(f) => typed::type3_bits(PROPRIETARY, f.contents()) + seq![false],
    }
}

/// Read the end of a PDU.
pub fn parse_proprietary_and_end(obit: bool, buffer: &mut BitBuffer) -> (field: Result<
    Option<Type3FieldGeneric>,
    PduParseErr,
>)
    ensures
        (field, final(buffer)@) == proprietary_and_end(obit, old(buffer)@),
{
    let proprietary = match typed::parse_type3_generic(obit, buffer, PROPRIETARY) {
        Err(e) => return Err(e),
        Ok(field) => field,
    };
    if obit {
        match delimiters::read_flag(buffer, "trailing_obit") {
            Err(e) => return Err(e),
            Ok(true) => return Err(PduParseErr::InvalidTrailingMbitValue),
            Ok(false) => {},
        }
    }
    Ok(proprietary)
}

/// Write the end of a PDU, behind an O-bit of 1.
pub fn write_proprietary_and_end(buffer: &mut BitBuffer, field: &Option<Type3FieldGeneric>) -> (
    written: Result<(), PduParseErr>)
    requires
        *field matches Some(f) ==> f.can_be_sent(),
        old(buffer)@.has_room(proprietary_and_end_bits(*field).len() as int),
    ensures
        written == Ok::<(), PduParseErr>(()),
        final(buffer)@ == old(buffer)@.write(proprietary_and_end_bits(*field)),
{
    proof {
        use_type_invariant(&*buffer);
        if let Some(f) = field {
            lemma_type3_bits_len(PROPRIETARY, f.contents());
            bits::lemma_value_bits_len(f.data as nat, f.len as nat);
            bitbuffer::lemma_write_twice(
                buffer@,
                typed::type3_bits(PROPRIETARY, f.contents()),
                seq![false],
            );
        }
    }
    let written = typed::write_type3_generic(true, buffer, field, PROPRIETARY);
    delimiters::write_mbit(buffer, 0);
    written
}

pub proof fn lemma_type3_bits_len(id: u64, contents: Seq<bool>)
    ensures
        typed::type3_bits(id, contents).len() == 16 + contents.len(),
{
    bits::lemma_value_bits_len(id as nat, 4);
    bits::lemma_value_bits_len(contents.len(), 11);
}

/// A Proprietary element as it comes out of a PDU that it was put in.
pub open spec fn received(field: Option<Type3FieldGeneric>) -> Option<Type3FieldGeneric> {
    match field {
        None => None,
        Some(f) => Some(
            Type3FieldGeneric {
                field_id: PROPRIETARY,
                len: f.len,
                data: if f.len <= 64 {
                    (f.data % 0x1_0000_0000_0000_0000) as u128
                } else {
                    f.data
                },
            },
        ),
    }
}

/// The end of a PDU is read as it was written.
pub proof fn law_end_read_back(s: BitState, field: Option<Type3FieldGeneric>)
    requires
        s.well_formed(),
        field matches Some(f) ==> f.can_be_sent(),
        s.next_is(proprietary_and_end_bits(field)),
    ensures
        proprietary_and_end(true, s) == (
            Ok::<_, PduParseErr>(received(field)),
            s.skip(proprietary_and_end_bits(field).len() as int),
        ),
{
    match field {
        None => {
            assert(s.bits[s.pos] == s.bits.subrange(s.pos, s.pos + 1)[0]);
        },
        Some(f) => {
            let element = typed::type3_bits(PROPRIETARY, f.contents());
            bitbuffer::lemma_next_is_split(s, element, seq![false]);
            bits::lemma_value_bits_len(f.data as nat, f.len as nat);
            lemma_type3_bits_len(PROPRIETARY, f.contents());
            laws::law_type3_read_back(s, PROPRIETARY, f);
            let t = s.skip(element.len() as int);
            assert(t.bits[t.pos] == t.bits.subrange(t.pos, t.pos + 1)[0]);
        },
    }
}

/// An end of a PDU that is read can be sent again, and is sent again as the bits that were read,
/// if the Proprietary element has no more than 128 bits.
pub proof fn law_end_written_back(s: BitState)
    requires
        s.well_formed(),
    ensures
        proprietary_and_end(true, s) matches (Ok(field), t) ==> (field matches Some(f) ==> f.len
            <= 128) ==> {
            &&& field matches Some(f) ==> f.can_be_sent()
            &&& s.next_is(proprietary_and_end_bits(field))
            &&& t == s.skip(proprietary_and_end_bits(field).len() as int)
        },
{
    laws::law_type3_written_back(s, PROPRIETARY);
    if let (Ok(field), t) = proprietary_and_end(true, s) {
        match field {
            None => {
                assert(s.bits.subrange(s.pos, s.pos + 1) =~= seq![false]);
            },
            Some(f) => {
                if f.len <= 128 {
                    let element = typed::type3_bits(PROPRIETARY, f.contents());
                    bits::lemma_value_bits_len(f.data as nat, f.len as nat);
                    lemma_type3_bits_len(PROPRIETARY, f.contents());
                    let u = s.skip(element.len() as int);
                    assert(u.bits.subrange(u.pos, u.pos + 1) =~= seq![false]);
                    bitbuffer::lemma_next_is_split(s, element, seq![false]);
                }
            },
        }
    }
}

} // verus!
