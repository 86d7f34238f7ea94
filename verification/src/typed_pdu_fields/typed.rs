//! Reading and writing optional elements.
//!
//! The spec functions say what a reader makes of the bits at the cursor and where it leaves the
//! cursor, in the good case and in every bad one.

use vstd::arithmetic::power2::*;
use vstd::prelude::*;

use super::{Type3FieldGeneric, Type4FieldGeneric};
use crate::bitbuffer::{BitBuffer, BitState};
use crate::bits;
use crate::pdu_parse_error::PduParseErr;
use crate::typed_pdu_fields::delimiters;

verus! {

/// The error of a reader that ran out of bits at the field called `name`.
pub open spec fn ended(name: &'static str) -> PduParseErr {
    PduParseErr::BufferEnded { field: Some(name) }
}

/// A type 2 element of `n` bits: where the O-bit is set, a P-bit and, if that is set, a value.
pub open spec fn type2_generic(obit: bool, s: BitState, n: int, name: &'static str) -> (
    Result<Option<u64>, PduParseErr>,
    BitState,
) {
    if !obit {
        (Ok(None), s)
    } else if s.remaining() < 1 {
        (Err(ended("pbit")), s)
    } else if !s.bits[s.pos] {
        (Ok(None), s.skip(1))
    } else if s.skip(1).remaining() < n {
        (Err(ended(name)), s.skip(1))
    } else {
        (Ok(Some(s.skip(1).value(n) as u64)), s.skip(1 + n))
    }
}

/// Whether a type 3 or type 4 element called `id` starts at the cursor: an M-bit of 1 and the
/// four bits of the identifier.
pub open spec fn element_follows(s: BitState, id: u64) -> Result<bool, PduParseErr> {
    if s.remaining() < 1 {
        Err(ended("peek_type34_mbit_and_id mbit"))
    } else if !s.bits[s.pos] {
        Ok(false)
    } else if s.remaining() < 5 {
        Err(ended("peek_type34_mbit_and_id id_bits"))
    } else {
        Ok(s.value_at(1, 4) == id)
    }
}

/// The part of a type 3 element before its contents: M-bit, identifier, and the length of the
/// contents in 11 bits. `None`, with the cursor where it was, if no such element is here.
pub open spec fn type3_header(s: BitState, id: u64, len_name: &'static str) -> (
    Result<Option<int>, PduParseErr>,
    BitState,
) {
    match element_follows(s, id) {
        Err(e) => (Err(e), s),
        Ok(false) => (Ok(None), s),
        Ok(true) => if s.remaining() < 16 {
            (Err(ended(len_name)), s.skip(5))
        } else {
            (Ok(Some(s.value_at(5, 11) as int)), s.skip(16))
        },
    }
}

/// A type 3 element, of whose contents the first 128 bits are kept.
pub open spec fn type3_generic(obit: bool, s: BitState, id: u64) -> (
    Result<Option<Type3FieldGeneric>, PduParseErr>,
    BitState,
) {
    if !obit {
        (Ok(None), s)
    } else {
        match type3_header(s, id, "parse_type3_generic len_bits") {
            (Err(e), t) => (Err(e), t),
            (Ok(None), t) => (Ok(None), t),
            (Ok(Some(len)), t) => if len > t.remaining() {
                (Err(ended("parse_type3_generic data")), t)
            } else {
                let kept = if len > 128 {
                    128
                } else {
                    len
                };
                let field = Type3FieldGeneric {
                    field_id: id,
                    len: len as usize,
                    data: t.value(kept) as u128,
                };
                (Ok(Some(field)), t.skip(len))
            },
        }
    }
}

/// The end of an optional part: every type 3 and type 4 element that still stands there, each
/// passed over by its length indicator, and the M-bit of 0 behind them.
pub open spec fn rest_skipped(s: BitState) -> (Result<(), PduParseErr>, BitState)
    decreases s.remaining(),
{
    if s.remaining() < 1 {
        (Err(ended("trailing_mbit")), s)
    } else if !s.bits[s.pos] {
        (Ok(()), s.skip(1))
    } else if s.remaining() < 5 {
        (Err(ended("type34_element_id")), s.skip(1))
    } else if s.remaining() < 16 {
        (Err(ended("type34_length_indicator")), s.skip(5))
    } else if s.value_at(5, 11) > s.skip(16).remaining() {
        (Err(ended("skip_remaining_type34 data")), s.skip(16))
    } else {
        rest_skipped(s.skip(16int + s.value_at(5, 11)))
    }
}

/// The part of a type 4 element before its contents: M-bit, identifier, a length in 11 bits and
/// the number of repetitions in 6. The length counts those 6 bits too. What is handed out is the
/// number of repetitions and the length of the contents alone.
pub open spec fn type4_header(s: BitState, id: u64) -> (
    Result<Option<(usize, usize)>, PduParseErr>,
    BitState,
) {
    match type3_header(s, id, "parse_type4_header len_bits") {
        (Err(e), t) => (Err(e), t),
        (Ok(None), t) => (Ok(None), t),
        (Ok(Some(len)), t) => if t.remaining() < 6 {
            (Err(ended("parse_type4_header num_elems")), t)
        } else if len < 6 {
            let e = PduParseErr::InconsistentLength { expected: 6, found: len as usize };
            (Err(e), t.skip(6))
        } else if len - 6 > t.skip(6).remaining() {
            (Err(ended("parse_type4_header payload")), t.skip(6))
        } else {
            (Ok(Some((t.value(6) as usize, (len - 6) as usize))), t.skip(6))
        },
    }
}

/// A type 4 element, of whose contents the first 64 bits are kept.
pub open spec fn type4_generic(obit: bool, s: BitState, id: u64) -> (
    Result<Option<Type4FieldGeneric>, PduParseErr>,
    BitState,
) {
    if !obit {
        (Ok(None), s)
    } else {
        match type4_header(s, id) {
            (Err(e), t) => (Err(e), t),
            (Ok(None), t) => (Ok(None), t),
            (Ok(Some((elems, len))), t) => {
                let kept = if len > 64 {
                    64
                } else {
                    len as int
                };
                let field = Type4FieldGeneric {
                    field_id: id,
                    len,
                    elems,
                    data: t.value(kept) as u64,
                };
                (Ok(Some(field)), t.skip(len as int))
            },
        }
    }
}

/// A type 2 element of `n` bits as it is sent where the O-bit is set.
pub open spec fn type2_bits(value: Option<u64>, n: nat) -> Seq<bool> {
    match value {
        Some(v) => seq![true] + bits::value_bits(v as nat, n),
        None => seq![false],
    }
}

/// The M-bit and the identifier that a type 3 or type 4 element starts with.
pub open spec fn type34_header_bits(id: u64) -> Seq<bool> {
    seq![true] + bits::value_bits(id as nat, 4)
}

/// A type 3 element as it is sent: M-bit, identifier, length, contents.
pub open spec fn type3_bits(id: u64, contents: Seq<bool>) -> Seq<bool> {
    type34_header_bits(id) + bits::value_bits(contents.len(), 11) + contents
}

impl Type3FieldGeneric {
    /// The contents of the element as they are sent.
    pub open spec fn contents(self) -> Seq<bool> {
        bits::value_bits(self.data as nat, self.len as nat)
    }

    /// The contents can be sent: there are no more than 128 bits of them, and their number needs
    /// no more than that. (Of contents of up to 64 bits only the low half of `data` is looked at.)
    pub open spec fn can_be_sent(self) -> bool {
        if self.len <= 64 {
            self.data % 0x1_0000_0000_0000_0000 < pow2(self.len as nat)
        } else {
            self.len <= 128 && self.data < pow2(self.len as nat)
        }
    }
}

/// Read one Type-2 element of `num_bits` bits. `None` if it is not there.
pub fn parse_type2_generic(
    obit: bool,
    buffer: &mut BitBuffer,
    num_bits: usize,
    field_name: &'static str,
) -> (field: Result<Option<u64>, PduParseErr>)
    requires
        num_bits <= 64,
    ensures
        (field, final(buffer)@) == type2_generic(obit, old(buffer)@, num_bits as int, field_name),
{
    if !obit {
        return Ok(None);
    }
    match delimiters::read_pbit(buffer) {
        Ok(true) => match buffer.read_field(num_bits, field_name) {
            Ok(v) => Ok(Some(v)),
            Err(e) => Err(e),
        },
        Ok(false) => Ok(None),
        Err(e) => Err(e),
    }
}

/// Read the m-bit for a type3 or type4 element without advancing the buffer pos
/// If set, reads the type3/4 field identifier and compares to expected id.
/// Return true if present, false if not present, or PduParseErr on error
fn peek_type34_mbit_and_id(buffer: &BitBuffer, expected_id: u64) -> (present: Result<
    bool,
    PduParseErr,
>)
    ensures
        present == element_follows(buffer@, expected_id),
{
    proof {
        use_type_invariant(buffer);
        lemma2_to64();
        if buffer@.remaining() >= 1 {
            bits::lemma_one_bit(buffer@.bits, buffer@.pos);
        }
    }
    match buffer.peek_bits(1) {
        None => Err(PduParseErr::BufferEnded { field: Some("peek_type34_mbit_and_id mbit") }),
        Some(0) => Ok(false),
        Some(_) => match buffer.peek_bits_posoffset(1, 4) {
            Some(id) => Ok(id == expected_id),
            None => Err(
                PduParseErr::BufferEnded { field: Some("peek_type34_mbit_and_id id_bits") },
            ),
        },
    }
}

/// Read the header of the type 3 element `expected_id`, and the length of its contents from it.
fn parse_type3_header(
    buffer: &mut BitBuffer,
    expected_id: u64,
    len_name: &'static str,
) -> (header: Result<Option<usize>, PduParseErr>)
    ensures
        match type3_header(old(buffer)@, expected_id, len_name) {
            (Err(e), t) => header == Err::<Option<usize>, _>(e) && final(buffer)@ == t,
            (Ok(None), t) => header == Ok::<Option<usize>, PduParseErr>(None) && final(buffer)@
                == t,
            (Ok(Some(len)), t) => header == Ok::<Option<usize>, PduParseErr>(Some(len as usize))
                && final(buffer)@ == t && 0 <= len < 2048,
        },
{
    proof {
        use_type_invariant(&*buffer);
        lemma2_to64();
    }
    match peek_type34_mbit_and_id(buffer, expected_id) {
        Err(e) => Err(e),
        Ok(false) => Ok(None),
        Ok(true) => {
            buffer.seek_rel(5);
            match buffer.read_bits(11) {
                Some(len) => Ok(Some(len as usize)),
                None => Err(PduParseErr::BufferEnded { field: Some(len_name) }),
            }
        },
    }
}

/// Parse type3 field into a placeholder struct, pending implementation.
/// Checks whether a given type3 field identifier is present. If not, returns None without advancing
/// the bitbuffer position. If present, reads the element and returns its first 128 bits as a
/// number, advancing the buffer position to the end of the element.
pub fn parse_type3_generic(obit: bool, buffer: &mut BitBuffer, expected_id: u64) -> (field: Result<
    Option<Type3FieldGeneric>,
    PduParseErr,
>)
    ensures
        (field, final(buffer)@) == type3_generic(obit, old(buffer)@, expected_id),
{
    // If the obit is set to false, the element cannot be present
    if !obit {
        return Ok(None);
    }
    let len_bits: usize = match parse_type3_header(
        buffer,
        expected_id,
        "parse_type3_generic len_bits",
    ) {
        Err(e) => return Err(e),
        Ok(None) => return Ok(None),
        Ok(Some(len)) => len,
    };

    // A length indicator that claims more bits than the SDU actually holds ends here: nothing
    // below can leave the buffer.
    if len_bits > buffer.get_len_remaining() {
        return Err(PduParseErr::BufferEnded { field: Some("parse_type3_generic data") });
    }
    let ghost contents = buffer@;
    proof {
        use_type_invariant(&*buffer);
    }

    // Read up to 128 bits of payload. A single read gives at most 64 bits, so longer payloads
    // take two reads (high half first, then low half).
    let read_bits: usize = if len_bits > 128 { 128 } else { len_bits };
    let data: u128 = if read_bits <= 64 {
        match buffer.read_bits(read_bits) {
            Some(x) => x as u128,
            None => {
                return Err(PduParseErr::BufferEnded { field: Some("parse_type3_generic data") });
            },
        }
    } else {
        let hi_bits: usize = read_bits - 64;
        let hi: u64 = match buffer.read_bits(hi_bits) {
            Some(x) => x,
            None => {
                return Err(
                    PduParseErr::BufferEnded { field: Some("parse_type3_generic data (high)") },
                );
            },
        };
        let lo: u64 = match buffer.read_bits(64) {
            Some(x) => x,
            None => {
                return Err(
                    PduParseErr::BufferEnded { field: Some("parse_type3_generic data (low)") },
                );
            },
        };
        proof {
            lemma_two_reads(contents, hi_bits as int, hi, lo);
        }
        ((hi as u128) << 64) | (lo as u128)
    };
    proof {
        lemma_value_fits(contents, read_bits as int);
    }

    // Seek forward past any bits beyond what was kept.
    if len_bits > 128 {
        if buffer.try_seek_rel(len_bits as isize - 128).is_none() {
            return Err(PduParseErr::BufferEnded { field: Some("parse_type3_generic skip") });
        }
    }
    Ok(Some(Type3FieldGeneric { field_id: expected_id, len: len_bits, data }))
}

/// Consume the trailing M-bit of a PDU's optional part, skipping every type 3/4 element that
/// follows it and that the parser did not decode (a repeated Facility, an element newer than
/// this parser, one it does not list). TS 100 392-2 Annex E.1.1 NOTE 6: the decoder can pass
/// unknown type 3/4 elements because their length is in the PDU. Failing the whole PDU on them
/// would drop a valid U-SETUP, U-TX DEMAND or U-DISCONNECT without any answer.
pub fn skip_remaining_type34(obit: bool, buffer: &mut BitBuffer) -> (skipped: Result<
    (),
    PduParseErr,
>)
    ensures
        (skipped, final(buffer)@) == if obit {
            rest_skipped(old(buffer)@)
        } else {
            (Ok(()), old(buffer)@)
        },
{
    if !obit {
        return Ok(());
    }
    loop
        invariant
            obit,
            rest_skipped(old(buffer)@) == rest_skipped(buffer@),
        decreases buffer@.remaining(),
    {
        proof {
            use_type_invariant(&*buffer);
            lemma2_to64();
        }
        let ghost here = buffer@;
        match delimiters::read_flag(buffer, "trailing_mbit") {
            Err(e) => return Err(e),
            Ok(false) => return Ok(()),
            Ok(true) => {},
        }
        if let Err(e) = buffer.read_field(4, "type34_element_id") {
            return Err(e);
        }
        let len_bits: usize = match buffer.read_field(11, "type34_length_indicator") {
            Err(e) => return Err(e),
            Ok(len) => len as usize,
        };
        assert(len_bits == here.value_at(5, 11));
        if len_bits > buffer.get_len_remaining() {
            return Err(PduParseErr::BufferEnded { field: Some("skip_remaining_type34 data") });
        }
        buffer.seek_rel(len_bits as isize);
    }
}

/// Read the header of the type 4 element `expected_id`: the number of repetitions and the length
/// of the contents.
fn parse_type4_header(buffer: &mut BitBuffer, expected_id: u64) -> (header: Result<
    Option<(usize, usize)>,
    PduParseErr,
>)
    ensures
        (header, final(buffer)@) == type4_header(old(buffer)@, expected_id),
        header matches Ok(Some((elems, len))) ==> {
            &&& elems < 64
            &&& len < 2048
            &&& len <= final(buffer)@.remaining()
        },
{
    let len_bits: usize = match parse_type3_header(
        buffer,
        expected_id,
        "parse_type4_header len_bits",
    ) {
        Err(e) => return Err(e),
        Ok(None) => return Ok(None),
        Ok(Some(len)) => len,
    };
    proof {
        lemma2_to64();
    }
    let num_elems: usize = match buffer.read_bits(6) {
        Some(x) => x as usize,
        None => {
            return Err(PduParseErr::BufferEnded { field: Some("parse_type4_header num_elems") });
        },
    };

    // The wire length covers the 6-bit element counter plus the payload, so anything below 6 is
    // malformed.
    if len_bits < 6 {
        return Err(PduParseErr::InconsistentLength { expected: 6, found: len_bits });
    }
    let payload_bits: usize = len_bits - 6;

    // Reject anything longer than the SDU actually holds, so callers can never seek or read past
    // the end.
    if payload_bits > buffer.get_len_remaining() {
        return Err(PduParseErr::BufferEnded { field: Some("parse_type4_header payload") });
    }
    Ok(Some((num_elems, payload_bits)))
}

/// Parse a Type-4 element into a placeholder struct type, pending proper implementation.
/// Imperfect as we cannot know individual element sizes, and no more than 64 bits are kept.
pub fn parse_type4_generic(obit: bool, buffer: &mut BitBuffer, expected_id: u64) -> (field: Result<
    Option<Type4FieldGeneric>,
    PduParseErr,
>)
    ensures
        (field, final(buffer)@) == type4_generic(obit, old(buffer)@, expected_id),
{
    // If the obit is set to false, the element cannot be present
    if !obit {
        return Ok(None);
    }
    match parse_type4_header(buffer, expected_id) {
        Err(e) => Err(e),
        Ok(None) => Ok(None),
        Ok(Some((num_elems, len_bits))) => {
            proof {
                use_type_invariant(&*buffer);
            }
            let read_bits: usize = if len_bits > 64 { 64 } else { len_bits };
            let data: u64 = match buffer.read_field(read_bits, "parse_type4_header") {
                Err(e) => return Err(e),
                Ok(x) => x,
            };

            // Seek forward to end of element, if larger than 64 bits
            if len_bits > 64 {
                if buffer.try_seek_rel(len_bits as isize - 64).is_none() {
                    return Err(
                        PduParseErr::BufferEnded { field: Some("parse_type4_generic skip") },
                    );
                }
            }
            Ok(Some(Type4FieldGeneric { field_id: expected_id, len: len_bits, elems: num_elems, data }))
        },
    }
}

/// Write one Type-2 element.
/// If `value` is `Some(v)`, writes P-bit=1 then `len` bits of `v`. If `None`, writes P-bit=0.
pub fn write_type2_generic(obit: bool, buffer: &mut BitBuffer, value: Option<u64>, len: usize)
    requires
        !obit ==> value is None,
        value matches Some(v) ==> len <= 64 && v < pow2(len as nat),
        obit ==> old(buffer)@.has_room(type2_bits(value, len as nat).len() as int),
    ensures
        final(buffer)@ == if obit {
            old(buffer)@.write(type2_bits(value, len as nat))
        } else {
            old(buffer)@
        },
{
    // No optional elements
    if !obit {
        return;
    }
    proof {
        use_type_invariant(&*buffer);
    }
    match value {
        Some(v) => {
            proof {
                bits::lemma_value_bits_len(v as nat, len as nat);
                crate::bitbuffer::lemma_write_twice(
                    buffer@,
                    seq![true],
                    bits::value_bits(v as nat, len as nat),
                );
            }
            delimiters::write_pbit(buffer, 1);
            buffer.write_bits(v, len);
        },
        None => {
            delimiters::write_pbit(buffer, 0);
        },
    }
}

/// Write the start of a type 3 or type 4 element (1-bit mbit + 4-bit field type)
pub fn write_type34_header_generic(buffer: &mut BitBuffer, field_type: u64)
    requires
        field_type < 16,
        old(buffer)@.has_room(5),
    ensures
        final(buffer)@ == old(buffer)@.write(type34_header_bits(field_type)),
{
    proof {
        use_type_invariant(&*buffer);
        lemma2_to64();
        crate::bitbuffer::lemma_write_twice(
            buffer@,
            seq![true],
            bits::value_bits(field_type as nat, 4),
        );
    }
    delimiters::write_mbit(buffer, 1);
    buffer.write_bits(field_type, 4);
}

/// Write an optional Type-3 element whose contents are given as a number.
pub fn write_type3_generic(
    obit: bool,
    buffer: &mut BitBuffer,
    value: &Option<Type3FieldGeneric>,
    field_id: u64,
) -> (written: Result<(), PduParseErr>)
    requires
        obit ==> (value matches Some(field) ==> {
            &&& field_id < 16
            &&& field.can_be_sent()
            &&& old(buffer)@.has_room(16 + field.len)
        }),
    ensures
        match value {
            None => written == Ok::<(), PduParseErr>(()) && final(buffer)@ == old(buffer)@,
            Some(field) => if obit {
                written == Ok::<(), PduParseErr>(()) && final(buffer)@ == old(buffer)@.write(
                    type3_bits(field_id, field.contents()),
                )
            } else {
                written == Err::<(), PduParseErr>(
                    PduParseErr::InvalidValue { field: "write_type3_generic", value: field_id },
                ) && final(buffer)@ == old(buffer)@
            },
        },
{
    // Sanity check
    if !obit && value.is_some() {
        return Err(PduParseErr::InvalidValue { field: "write_type3_generic", value: field_id });
    }
    if let Some(elem) = value {
        let ghost start = buffer@;
        let ghost header = type34_header_bits(field_id);
        let ghost length = bits::value_bits(elem.len as nat, 11);
        proof {
            use_type_invariant(&*buffer);
            lemma2_to64();
            bits::lemma_value_bits_len(field_id as nat, 4);
            bits::lemma_value_bits_len(elem.len as nat, 11);
            bits::lemma_value_bits_len(elem.data as nat, elem.len as nat);
            crate::bitbuffer::lemma_write_twice(start, header, length);
            crate::bitbuffer::lemma_write_twice(start, header + length, elem.contents());
        }
        // Write mbit and 4-bit field ID, then write length, then the element itself
        write_type34_header_generic(buffer, field_id);
        buffer.write_bits(elem.len as u64, 11);
        let lo: u64 = elem.data as u64;
        let ghost data = elem.data;
        proof {
            assert(data as u64 == data % 0x1_0000_0000_0000_0000u128) by (bit_vector);
            lemma2_to64_rest();
        }
        // A single write takes up to 64 bits, so longer payloads take two, the high half first.
        if elem.len <= 64 {
            proof {
                bits::lemma_value_bits_low(data as nat, elem.len as nat, 64);
            }
            buffer.write_bits(lo, elem.len);
        } else {
            let hi_bits: usize = elem.len - 64;
            let hi: u64 = (elem.data >> 64) as u64;
            proof {
                assert((data >> 64) as u64 == data / 0x1_0000_0000_0000_0000u128) by (bit_vector);
                lemma_pow2_adds(hi_bits as nat, 64);
                assert(hi < pow2(hi_bits as nat)) by (nonlinear_arith)
                    requires
                        data < pow2(hi_bits as nat) * 0x1_0000_0000_0000_0000,
                        hi == data / 0x1_0000_0000_0000_0000u128,
                ;
                bits::lemma_value_bits_concat(hi as nat, hi_bits as nat, lo as nat, 64);
                bits::lemma_value_bits_len(hi as nat, hi_bits as nat);
                crate::bitbuffer::lemma_write_twice(
                    buffer@,
                    bits::value_bits(hi as nat, hi_bits as nat),
                    bits::value_bits(lo as nat, 64),
                );
            }
            buffer.write_bits(hi, hi_bits);
            buffer.write_bits(lo, 64);
        }
    }
    // Nothing is written for None (no mbit)
    Ok(())
}

/// Write a Type-4 element whose contents are not known in detail: there is no such writer, so
/// there must be no element.
pub fn write_type4_todo(
    obit: bool,
    buffer: &mut BitBuffer,
    value: &Option<Type4FieldGeneric>,
    field_id: u64,
) -> (written: Result<(), PduParseErr>)
    requires
        obit ==> *value is None,
    ensures
        final(buffer)@ == old(buffer)@,
        written == if *value is Some {
            Err(PduParseErr::InvalidValue { field: "write_type4_todo", value: field_id })
        } else {
            Ok(())
        },
{
    // Sanity check
    if !obit && value.is_some() {
        return Err(PduParseErr::InvalidValue { field: "write_type4_todo", value: field_id });
    }
    Ok(())
}

/// Parse a Type-2 element with the parser of its contents.
pub fn parse_type2_struct<T, F>(obit: bool, buffer: &mut BitBuffer, parser: F) -> (element: Result<
    Option<T>,
    PduParseErr,
>) where F: FnOnce(&mut BitBuffer) -> Result<T, PduParseErr>
    requires
        obit && delimiters::flag(old(buffer)@, "pbit").0 == Ok::<bool, PduParseErr>(true)
            ==> forall|b: &mut BitBuffer|
            b@ == old(buffer)@.skip(1) ==> #[trigger] call_requires(parser, (b,)),
    ensures
        !obit ==> element == Ok::<Option<T>, PduParseErr>(None) && final(buffer)@ == old(buffer)@,
        obit ==> match delimiters::flag(old(buffer)@, "pbit") {
            (Err(e), t) => element == Err::<Option<T>, _>(e) && final(buffer)@ == t,
            (Ok(false), t) => element == Ok::<Option<T>, PduParseErr>(None) && final(buffer)@ == t,
            (Ok(true), t) => exists|b: &mut BitBuffer, r: Result<T, PduParseErr>|
                {
                    &&& #[trigger] call_ensures(parser, (b,), r)
                    &&& b@ == t
                    &&& final(b)@ == final(buffer)@
                    &&& element == match r {
                        Ok(v) => Ok(Some(v)),
                        Err(e) => Err(e),
                    }
                },
        },
{
    if !obit {
        return Ok(None);
    }
    match delimiters::read_pbit(buffer) {
        Ok(true) => match parser(buffer) {
            Ok(v) => Ok(Some(v)),
            Err(e) => Err(e),
        },
        Ok(false) => Ok(None),
        Err(e) => Err(e),
    }
}

/// Parse a Type-3 element with the parser of its contents.
/// Validates the m-bit and element ID, then calls the parser function directly on the buffer if present.
/// The parser is responsible for reading exactly the announced number of bits.
pub fn parse_type3_struct<T, F>(
    obit: bool,
    buffer: &mut BitBuffer,
    expected_id: u64,
    parser: F,
) -> (element: Result<Option<T>, PduParseErr>) where
    F: FnOnce(&mut BitBuffer) -> Result<T, PduParseErr>,

    requires
        obit ==> (type3_header(old(buffer)@, expected_id, "parse_type3_struct len_bits") matches (
            Ok(Some(_)),
            t,
        ) ==> {
            &&& forall|b: &mut BitBuffer| b@ == t ==> #[trigger] call_requires(parser, (b,))
            // A parser that succeeds does not leave the cursor before the contents.
            &&& forall|b: &mut BitBuffer, v: T| #[trigger]
                call_ensures(parser, (b,), Ok(v)) && b@ == t ==> t.pos <= final(b)@.pos
        }),
    ensures
        !obit ==> element == Ok::<Option<T>, PduParseErr>(None) && final(buffer)@ == old(buffer)@,
        obit ==> match type3_header(
            old(buffer)@,
            expected_id,
            "parse_type3_struct len_bits",
        ) {
            (Err(e), t) => element == Err::<Option<T>, _>(e) && final(buffer)@ == t,
            (Ok(None), t) => element == Ok::<Option<T>, PduParseErr>(None) && final(buffer)@ == t,
            (Ok(Some(len)), t) => exists|b: &mut BitBuffer, r: Result<T, PduParseErr>|
                {
                    &&& #[trigger] call_ensures(parser, (b,), r)
                    &&& b@ == t
                    &&& final(b)@ == final(buffer)@
                    &&& element == match r {
                        Ok(v) => if final(buffer)@.pos == t.pos + len {
                            Ok(Some(v))
                        } else {
                            Err(
                                PduParseErr::InconsistentLength {
                                    expected: len as usize,
                                    found: (final(buffer)@.pos - t.pos) as usize,
                                },
                            )
                        },
                        Err(e) => Err(e),
                    }
                },
        },
{
    // If the obit is set to false, the element cannot be present
    if !obit {
        return Ok(None);
    }
    let len_bits: usize = match parse_type3_header(
        buffer,
        expected_id,
        "parse_type3_struct len_bits",
    ) {
        Err(e) => return Err(e),
        Ok(None) => return Ok(None),
        Ok(Some(len)) => len,
    };
    let start_pos: usize = buffer.get_pos();
    let value = match parser(buffer) {
        Err(e) => return Err(e),
        Ok(value) => value,
    };
    let found: usize = buffer.get_pos() - start_pos;
    if found != len_bits {
        return Err(PduParseErr::InconsistentLength { expected: len_bits, found });
    }
    Ok(Some(value))
}

/// `states` are the buffers before and after each of a row of calls, one for each of `values`,
/// of which the first found the buffer at `start`.
pub open spec fn run<T>(start: BitState, states: Seq<BitState>, values: Seq<T>) -> bool {
    states.len() == values.len() + 1 && states[0] == start
}

/// `k` counts one of `values`.
pub open spec fn nth<T>(values: Seq<T>, k: int) -> bool {
    0 <= k < values.len()
}

/// Parse a Type-4 element with the parser of one repetition of its contents. Together the calls
/// read exactly the announced number of bits.
#[verifier::loop_isolation(false)]
pub fn parse_type4_struct<T, F>(
    obit: bool,
    buffer: &mut BitBuffer,
    expected_id: u64,
    parser: F,
) -> (elements: Result<Option<Vec<T>>, PduParseErr>) where
    F: Fn(&mut BitBuffer) -> Result<T, PduParseErr>,

    requires
        obit ==> (type4_header(old(buffer)@, expected_id) matches (Ok(Some((n, len))), t) ==> {
            // The parser can be called wherever the calls before it have led.
            &&& forall|states: Seq<BitState>, values: Seq<T>, b: &mut BitBuffer|
                #![trigger run(t, states, values), call_requires(parser, (b,))]
                run(t, states, values) && values.len() < n && b@ == states.last() && (forall|k: int| #[trigger]
                    nth(values, k) ==> exists|c: &mut BitBuffer|
                        {
                            &&& #[trigger] call_ensures(parser, (c,), Ok(values[k]))
                            &&& c@ == states[k]
                            &&& final(c)@ == states[k + 1]
                        }) ==> call_requires(parser, (b,))
            // Calls that all succeed do not leave the cursor before the contents.
            &&& forall|states: Seq<BitState>, values: Seq<T>| #[trigger]
                run(t, states, values) && values.len() == n && (forall|k: int| #[trigger]
                    nth(values, k) ==> exists|c: &mut BitBuffer|
                        {
                            &&& #[trigger] call_ensures(parser, (c,), Ok(values[k]))
                            &&& c@ == states[k]
                            &&& final(c)@ == states[k + 1]
                        }) ==> t.pos <= states.last().pos
        }),
    ensures
        !obit ==> elements == Ok::<Option<Vec<T>>, PduParseErr>(None)
            && final(buffer)@ == old(buffer)@,
        obit ==> match type4_header(old(buffer)@, expected_id) {
            (Err(e), t) => elements == Err::<Option<Vec<T>>, _>(e) && final(buffer)@ == t,
            (Ok(None), t) => elements == Ok::<Option<Vec<T>>, PduParseErr>(None) && final(buffer)@
                == t,
            (Ok(Some((n, len))), t) => exists|states: Seq<BitState>, values: Seq<T>|
                {
                    &&& #[trigger] run(t, states, values)
                    &&& values.len() <= n
                    &&& forall|k: int| #[trigger]
                        nth(values, k) ==> exists|c: &mut BitBuffer|
                            {
                                &&& #[trigger] call_ensures(parser, (c,), Ok(values[k]))
                                &&& c@ == states[k]
                                &&& final(c)@ == states[k + 1]
                            }
                    &&& if values.len() < n {
                        // The next call failed.
                        exists|b: &mut BitBuffer, e: PduParseErr|
                            {
                                &&& #[trigger] call_ensures(parser, (b,), Err(e))
                                &&& b@ == states.last()
                                &&& final(b)@ == final(buffer)@
                                &&& elements == Err::<Option<Vec<T>>, _>(e)
                            }
                    } else {
                        &&& final(buffer)@ == states.last()
                        &&& if final(buffer)@.pos == t.pos + len {
                            elements matches Ok(Some(v)) && v@ == values
                        } else {
                            elements == Err::<Option<Vec<T>>, _>(
                                PduParseErr::InconsistentLength {
                                    expected: len,
                                    found: (final(buffer)@.pos - t.pos) as usize,
                                },
                            )
                        }
                    }
                },
        },
{
    // If the obit is set to false, the element cannot be present
    if !obit {
        return Ok(None);
    }
    let (num_elems, len_bits): (usize, usize) = match parse_type4_header(buffer, expected_id) {
        Err(e) => return Err(e),
        Ok(None) => return Ok(None),
        Ok(Some(header)) => header,
    };
    let ghost t = buffer@;
    assert(type4_header(old(buffer)@, expected_id) matches (Ok(Some(header)), after) && after == t
        && header == (num_elems, len_bits));
    let mut elems: Vec<T> = Vec::with_capacity(num_elems);
    let start_pos: usize = buffer.get_pos();
    let ghost mut states: Seq<BitState> = seq![t];

    let mut i: usize = 0;
    while i < num_elems
        invariant
            i <= num_elems,
            elems@.len() == i,
            run(t, states, elems@),
            states.last() == buffer@,
            forall|k: int| #[trigger]
                nth(elems@, k) ==> exists|c: &mut BitBuffer|
                    {
                        &&& #[trigger] call_ensures(parser, (c,), Ok(elems@[k]))
                        &&& c@ == states[k]
                        &&& final(c)@ == states[k + 1]
                    },
        decreases num_elems - i,
    {
        match parser(buffer) {
            Err(e) => return Err(e),
            Ok(elem) => {
                let ghost before = elems@;
                assert(exists|c: &mut BitBuffer|
                    {
                        &&& #[trigger] call_ensures(parser, (c,), Ok(elem))
                        &&& c@ == states.last()
                        &&& final(c)@ == buffer@
                    });
                elems.push(elem);
                proof {
                    let was = states;
                    states = states.push(buffer@);
                    assert forall|k: int| #[trigger] nth(elems@, k) implies exists|c: &mut BitBuffer|
                        {
                            &&& #[trigger] call_ensures(parser, (c,), Ok(elems@[k]))
                            &&& c@ == states[k]
                            &&& final(c)@ == states[k + 1]
                        } by {
                        if k < before.len() {
                            assert(nth(before, k));
                            assert(elems@[k] == before[k]);
                            assert(states[k] == was[k] && states[k + 1] == was[k + 1]);
                        } else {
                            assert(elems@[k] == elem);
                        }
                    }
                }
            },
        }
        i = i + 1;
    }
    let found: usize = buffer.get_pos() - start_pos;
    if found != len_bits {
        return Err(PduParseErr::InconsistentLength { expected: len_bits, found });
    }
    Ok(Some(elems))
}

/// Write a Type-2 element with the writer of its contents.
pub fn write_type2_struct<T, F>(
    obit: bool,
    buffer: &mut BitBuffer,
    value: &Option<T>,
    writer: F,
) -> (written: Result<(), PduParseErr>) where F: Fn(&T, &mut BitBuffer) -> Result<(), PduParseErr>
    requires
        !obit ==> *value is None,
        obit ==> old(buffer)@.has_room(1),
        *value matches Some(v) ==> forall|b: &mut BitBuffer|
            b@ == old(buffer)@.write(seq![true]) ==> #[trigger] call_requires(writer, (&v, b)),
    ensures
        !obit ==> written == Ok::<(), PduParseErr>(()) && final(buffer)@ == old(buffer)@,
        obit ==> match *value {
            None => written == Ok::<(), PduParseErr>(()) && final(buffer)@ == old(buffer)@.write(
                seq![false],
            ),
            Some(v) => exists|b: &mut BitBuffer|
                {
                    &&& #[trigger] call_ensures(writer, (&v, b), written)
                    &&& b@ == old(buffer)@.write(seq![true])
                    &&& final(b)@ == final(buffer)@
                },
        },
{
    // No optional elements
    if !obit {
        return Ok(());
    }
    match value {
        Some(v) => {
            delimiters::write_pbit(buffer, 1);
            writer(v, buffer)
        },
        None => {
            delimiters::write_pbit(buffer, 0);
            Ok(())
        },
    }
}

/// What a writer of a type 3 element's contents starts from: the header has been written, with
/// room for the length.
pub open spec fn type3_opened(s: BitState, id: u64) -> BitState {
    s.write(type34_header_bits(id)).write_value(0, 11)
}

/// A type 3 element whose contents end at the cursor, with their length put in the 11 bits that
/// end at `start`, where they begin.
pub open spec fn type3_closed(s: BitState, start: int) -> BitState {
    s.at(start - 11).write_value((s.pos - start) as nat, 11).at(s.pos)
}

/// Write an optional Type-3 element with the writer of its contents.
pub fn write_type3_struct<T, F>(
    obit: bool,
    buffer: &mut BitBuffer,
    value: &Option<T>,
    field_id: u64,
    writer: F,
) -> (written: Result<(), PduParseErr>) where F: Fn(&T, &mut BitBuffer) -> Result<(), PduParseErr>
    requires
        obit ==> (*value matches Some(elem) ==> {
            let t = type3_opened(old(buffer)@, field_id);
            &&& field_id < 16
            &&& old(buffer)@.has_room(16)
            &&& forall|b: &mut BitBuffer| b@ == t ==> #[trigger] call_requires(writer, (&elem, b))
            // The contents end behind where they begin, and their length fits its field.
            &&& forall|b: &mut BitBuffer, r: Result<(), PduParseErr>| #[trigger]
                call_ensures(writer, (&elem, b), r) && r is Ok && b@ == t
                    ==> t.pos <= final(b)@.pos < t.pos + 2048
        }),
    ensures
        match *value {
            None => written == Ok::<(), PduParseErr>(()) && final(buffer)@ == old(buffer)@,
            Some(elem) => if obit {
                let t = type3_opened(old(buffer)@, field_id);
                exists|b: &mut BitBuffer|
                    {
                        &&& #[trigger] call_ensures(writer, (&elem, b), written)
                        &&& b@ == t
                        &&& final(buffer)@ == if written is Ok {
                            type3_closed(final(b)@, t.pos)
                        } else {
                            final(b)@
                        }
                    }
            } else {
                written == Err::<(), PduParseErr>(
                    PduParseErr::InvalidValue { field: "write_type3_struct", value: field_id },
                ) && final(buffer)@ == old(buffer)@
            },
        },
{
    // Sanity check
    if !obit && value.is_some() {
        return Err(PduParseErr::InvalidValue { field: "write_type3_struct", value: field_id });
    }
    if let Some(elem) = value {
        proof {
            use_type_invariant(&*buffer);
            lemma2_to64();
            bits::lemma_value_bits_len(field_id as nat, 4);
            bits::lemma_value_bits_len(0, 11);
        }
        // Write mbit and 4-bit field ID, then length field, then write the element itself
        write_type34_header_generic(buffer, field_id);
        let pos_len_field: usize = buffer.get_raw_pos();
        buffer.write_bits(0, 11);
        let written = writer(elem, buffer);
        if written.is_err() {
            return written;
        }
        proof {
            use_type_invariant(&*buffer);
        }
        // Calculate actual length and backfill
        let pos_end: usize = buffer.get_raw_pos();
        let len_bits: u64 = (pos_end - pos_len_field - 11) as u64;
        proof {
            bits::lemma_value_bits_len(len_bits as nat, 11);
        }
        buffer.set_raw_pos(pos_len_field);
        buffer.write_bits(len_bits, 11);
        buffer.set_raw_pos(pos_end);
        return written;
    }
    // Nothing is written for None (no mbit)
    Ok(())
}

/// What the first writer of a type 4 element's contents starts from: the header has been written,
/// with room for the length and the number of repetitions.
pub open spec fn type4_opened(s: BitState, id: u64) -> BitState {
    s.write(type34_header_bits(id)).write_value(0, 17)
}

/// A type 4 element of `n` repetitions whose contents end at the cursor, with their length, 6 bits
/// more, and `n` put in the 17 bits that end at `start`, where they begin.
pub open spec fn type4_closed(s: BitState, start: int, n: nat) -> BitState {
    s.at(start - 17).write_value((s.pos - start + 6) as nat, 11).write_value(n, 6).at(s.pos)
}

/// Write a Type-4 element with the writer of one repetition of its contents.
#[verifier::loop_isolation(false)]
pub fn write_type4_struct<T, F>(
    obit: bool,
    buffer: &mut BitBuffer,
    value: &Option<Vec<T>>,
    field_id: u64,
    writer: F,
) -> (written: Result<(), PduParseErr>) where F: Fn(&T, &mut BitBuffer) -> Result<(), PduParseErr>
    requires
        obit ==> (*value matches Some(elems) ==> {
            let t = type4_opened(old(buffer)@, field_id);
            &&& field_id < 16
            &&& old(buffer)@.has_room(22)
            &&& elems@.len() < 64
            // The writer can be called wherever the calls before it have led.
            &&& forall|states: Seq<BitState>, done: Seq<T>, b: &mut BitBuffer|
                #![trigger run(t, states, done), call_requires(writer, (&elems@[done.len() as int], b))]
                run(t, states, done) && done.len() < elems@.len() && done == elems@.take(
                    done.len() as int,
                ) && b@ == states.last() && (forall|k: int| #[trigger]
                    nth(done, k) ==> exists|c: &mut BitBuffer, r: Result<(), PduParseErr>|
                        {
                            &&& #[trigger] call_ensures(writer, (&done[k], c), r)
                            &&& r is Ok
                            &&& c@ == states[k]
                            &&& final(c)@ == states[k + 1]
                        }) ==> call_requires(writer, (&elems@[done.len() as int], b))
            // The contents end behind where they begin, and their length fits its field.
            &&& forall|states: Seq<BitState>| #[trigger]
                run(t, states, elems@) && (forall|k: int| #[trigger]
                    nth(elems@, k) ==> exists|c: &mut BitBuffer, r: Result<(), PduParseErr>|
                        {
                            &&& #[trigger] call_ensures(writer, (&elems@[k], c), r)
                            &&& r is Ok
                            &&& c@ == states[k]
                            &&& final(c)@ == states[k + 1]
                        }) ==> t.pos <= states.last().pos < t.pos + 2042
        }),
    ensures
        match *value {
            None => written == Ok::<(), PduParseErr>(()) && final(buffer)@ == old(buffer)@,
            Some(elems) => if obit {
                let t = type4_opened(old(buffer)@, field_id);
                exists|states: Seq<BitState>, done: Seq<T>|
                    {
                        &&& #[trigger] run(t, states, done)
                        &&& done.len() <= elems@.len()
                        &&& done == elems@.take(done.len() as int)
                        &&& forall|k: int| #[trigger]
                            nth(done, k) ==> exists|c: &mut BitBuffer, r: Result<(), PduParseErr>|
                                {
                                    &&& #[trigger] call_ensures(writer, (&done[k], c), r)
                                    &&& r is Ok
                                    &&& c@ == states[k]
                                    &&& final(c)@ == states[k + 1]
                                }
                        &&& if done.len() < elems@.len() {
                            // The next call failed.
                            written is Err && exists|b: &mut BitBuffer|
                                {
                                    &&& #[trigger] call_ensures(
                                        writer,
                                        (&elems@[done.len() as int], b),
                                        written,
                                    )
                                    &&& b@ == states.last()
                                    &&& final(b)@ == final(buffer)@
                                }
                        } else {
                            &&& written == Ok::<(), PduParseErr>(())
                            &&& final(buffer)@ == type4_closed(states.last(), t.pos, elems@.len())
                        }
                    }
            } else {
                written == Err::<(), PduParseErr>(
                    PduParseErr::InvalidValue { field: "write_type4_struct", value: field_id },
                ) && final(buffer)@ == old(buffer)@
            },
        },
{
    // Sanity check
    if !obit && value.is_some() {
        return Err(PduParseErr::InvalidValue { field: "write_type4_struct", value: field_id });
    }
    if let Some(elems) = value {
        proof {
            use_type_invariant(&*buffer);
            lemma2_to64();
            bits::lemma_value_bits_len(field_id as nat, 4);
            bits::lemma_value_bits_len(0, 17);
        }
        // Write m-bit and field ID
        write_type34_header_generic(buffer, field_id);

        // Reserve space for length (11 bits) + num_elems (6 bits)
        let pos_len_field: usize = buffer.get_raw_pos();
        buffer.write_bits(0, 17);
        let ghost t = buffer@;
        assert(t == type4_opened(old(buffer)@, field_id));
        let ghost mut states: Seq<BitState> = seq![t];

        // Write all elements
        let mut i: usize = 0;
        while i < elems.len()
            invariant
                i <= elems@.len(),
                run(t, states, elems@.take(i as int)),
                states.last() == buffer@,
                forall|k: int| #[trigger]
                    nth(elems@.take(i as int), k) ==> exists|
                        c: &mut BitBuffer,
                        r: Result<(), PduParseErr>,
                    |
                        {
                            &&& #[trigger] call_ensures(writer, (&elems@.take(i as int)[k], c), r)
                            &&& r is Ok
                            &&& c@ == states[k]
                            &&& final(c)@ == states[k + 1]
                        },
            decreases elems@.len() - i,
        {
            let ghost done = elems@.take(i as int);
            assert(done.len() == i);
            let ghost was = states;
            let written = writer(&elems[i], buffer);
            if written.is_err() {
                return written;
            }
            proof {
                assert(exists|c: &mut BitBuffer, r: Result<(), PduParseErr>|
                    {
                        &&& #[trigger] call_ensures(writer, (&elems@[i as int], c), r)
                        &&& r is Ok
                        &&& c@ == was.last()
                        &&& final(c)@ == buffer@
                    });
                states = states.push(buffer@);
                let more = elems@.take(i + 1);
                assert forall|k: int| #[trigger] nth(more, k) implies exists|
                    c: &mut BitBuffer,
                    r: Result<(), PduParseErr>,
                |
                    {
                        &&& #[trigger] call_ensures(writer, (&more[k], c), r)
                        &&& r is Ok
                        &&& c@ == states[k]
                        &&& final(c)@ == states[k + 1]
                    } by {
                    if k < i {
                        assert(nth(done, k));
                        assert(more[k] == done[k]);
                        assert(states[k] == was[k] && states[k + 1] == was[k + 1]);
                    } else {
                        assert(more[k] == elems@[i as int]);
                    }
                }
            }
            i = i + 1;
        }
        proof {
            use_type_invariant(&*buffer);
            assert(elems@.take(i as int) =~= elems@);
            assert(run(t, states, elems@));
        }

        // Calculate actual length and backfill
        let pos_end: usize = buffer.get_raw_pos();
        let len_bits: u64 = (pos_end - pos_len_field - 11) as u64;
        let num_elems: u64 = elems.len() as u64;
        proof {
            bits::lemma_value_bits_len(len_bits as nat, 11);
            bits::lemma_value_bits_len(num_elems as nat, 6);
        }
        buffer.set_raw_pos(pos_len_field);
        buffer.write_bits(len_bits, 11);
        buffer.write_bits(num_elems, 6);
        buffer.set_raw_pos(pos_end);
    }
    // Nothing is written for None (no m-bit)
    Ok(())
}

/// What fits a machine number stays itself in it.
pub proof fn lemma_value_fits(s: BitState, n: int)
    requires
        s.well_formed(),
        0 <= n <= s.remaining(),
        n <= 128,
    ensures
        s.value(n) < pow2(n as nat),
        n <= 64 ==> s.value(n) <= u64::MAX,
        s.value(n) <= u128::MAX,
{
    bits::lemma_bits_value_bound(s.bits.subrange(s.pos, s.pos + n));
    lemma2_to64();
    lemma2_to64_rest();
    lemma_pow2_adds(64, 64);
    assert(pow2(64) * pow2(64) == 0x1_0000_0000_0000_0000_0000_0000_0000_0000) by (nonlinear_arith)
        requires
            pow2(64) == 0x1_0000_0000_0000_0000,
    ;
    if n < 64 {
        lemma_pow2_strictly_increases(n as nat, 64);
    }
    if n < 128 {
        lemma_pow2_strictly_increases(n as nat, 128);
    }
}

/// Two reads in a row, the second of 64 bits, give the two halves of one number.
pub proof fn lemma_two_reads(s: BitState, n: int, hi: u64, lo: u64)
    requires
        s.well_formed(),
        0 <= n <= 64,
        n + 64 <= s.remaining(),
        hi == s.value(n),
        lo == s.skip(n).value(64),
    ensures
        ((hi as u128) << 64) | (lo as u128) == s.value(n + 64),
{
    let high = s.bits.subrange(s.pos, s.pos + n);
    let low = s.bits.subrange(s.pos + n, s.pos + n + 64);
    assert(s.bits.subrange(s.pos, s.pos + (n + 64)) =~= high + low);
    bits::lemma_bits_value_concat(high, low);
    lemma2_to64_rest();
    assert(((hi as u128) << 64) | (lo as u128) == hi as u128 * 0x1_0000_0000_0000_0000u128
        + lo as u128) by (bit_vector);
}

} // verus!
