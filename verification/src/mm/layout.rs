//! Where each element of the authentication PDUs stands, bit by bit, as they are sent and as they
//! are received.

use vstd::arithmetic::power2::*;
use vstd::prelude::*;

use super::authentication_subtype::{self, AuthenticationSubtype};
use super::d_authentication;
use super::d_authentication::DAuthentication;
use super::elements;
use super::u_authentication;
use super::u_authentication::UAuthentication;
use crate::bitbuffer;
use crate::bitbuffer::{BitBuffer, BitState};
use crate::bits;
use crate::pdu_parse_error::PduParseErr;
use crate::typed_pdu_fields::laws;
use crate::typed_pdu_fields::{typed, Type3FieldGeneric};

verus! {

/// An 80-bit field is sent as its low 80 binary digits, the most significant one first.
pub proof fn law_80_bits_are_sent(value: u128)
    ensures
        forall|b: &mut BitBuffer, r: ()|
            b@.well_formed() && #[trigger] call_ensures(elements::write_field_80, (b, value), r)
                ==> {
                &&& bits::holds(final(b)@.bits, b@.pos, 80, value as nat)
                &&& bitbuffer::wrote(b@, final(b)@, 80)
            },
{
    assert forall|b: &mut BitBuffer, r: ()|
        b@.well_formed() && #[trigger] call_ensures(
            elements::write_field_80,
            (b, value),
            r,
        ) implies {
        &&& bits::holds(final(b)@.bits, b@.pos, 80, value as nat)
        &&& bitbuffer::wrote(b@, final(b)@, 80)
    } by {
        let new = bits::value_bits(value as nat, 80);
        bits::lemma_value_bits_len(value as nat, 80);
        assert(new.subrange(0, 80) =~= new);
        bits::lemma_holds(new, 0, 80, value as nat);
        bitbuffer::lemma_write_is_wrote(b@, new);
        laws::lemma_written_field(b@, new, 0, 80, value as nat);
    }
}

/// An 80-bit field is received as the number of its 80 binary digits. Where they are not all there,
/// the error names the field, and the cursor has passed the first 16 if those are.
pub proof fn law_80_bits_are_received(name: &'static str)
    ensures
        forall|b: &mut BitBuffer, r: Result<u128, PduParseErr>|
            b@.well_formed() && #[trigger] call_ensures(elements::read_field_80, (b, name), r) ==> {
                let left = b@.bits.len() - b@.pos;
                &&& left < 80 ==> r == Err::<u128, _>(
                    PduParseErr::BufferEnded { field: Some(name) },
                )
                &&& left < 16 ==> bitbuffer::moved(b@, final(b)@, b@.pos)
                &&& 16 <= left < 80 ==> bitbuffer::moved(b@, final(b)@, b@.pos + 16)
                &&& left >= 80 ==> {
                    &&& r matches Ok(v)
                    &&& v < 0x1_0000_0000_0000_0000_0000
                    &&& bits::holds(b@.bits, b@.pos, 80, v as nat)
                    &&& bitbuffer::moved(b@, final(b)@, b@.pos + 80)
                }
            },
{
    assert forall|s: BitState| #[trigger] s.well_formed() && s.bits.len() - s.pos >= 80 implies {
        let v = s.value(80);
        &&& v < 0x1_0000_0000_0000_0000_0000
        &&& bits::holds(s.bits, s.pos, 80, v)
    } by {
        lemma_field_80(s, 0);
    }
}

/// The number of 80 bits.
proof fn lemma_field_80(s: BitState, offset: int)
    requires
        s.well_formed(),
        0 <= offset,
        s.pos + offset + 80 <= s.bits.len(),
    ensures
        s.skip(offset).value(80) < 0x1_0000_0000_0000_0000_0000,
        s.skip(offset).value(80) <= u128::MAX,
        bits::holds(s.bits, s.pos + offset, 80, s.skip(offset).value(80)),
{
    elements::lemma_pow2_80();
    bits::lemma_field_holds_its_number(s.bits, s.pos + offset, 80);
}

/// The number of up to 64 bits.
proof fn lemma_field(s: BitState, offset: int, n: int)
    requires
        s.well_formed(),
        0 <= offset,
        0 <= n <= 64,
        s.pos + offset + n <= s.bits.len(),
    ensures
        s.skip(offset).value(n) < pow2(n as nat),
        s.skip(offset).value(n) <= u64::MAX,
        bits::holds(s.bits, s.pos + offset, n, s.skip(offset).value(n)),
{
    typed::lemma_value_fits(s.skip(offset), n);
    bits::lemma_field_holds_its_number(s.bits, s.pos + offset, n);
}

/// A field holds a number that fits it exactly where that is its number.
proof fn lemma_is_number(s: BitState, offset: int, n: int, value: nat)
    requires
        s.well_formed(),
        0 <= offset,
        0 <= n <= 64,
        s.pos + offset + n <= s.bits.len(),
        value < pow2(n as nat),
    ensures
        bits::holds(s.bits, s.pos + offset, n, value) <==> s.skip(offset).value(n) == value,
{
    lemma_field(s, offset, n);
    if bits::holds(s.bits, s.pos + offset, n, value) {
        bits::law_a_field_holds_one_number(
            s.bits,
            s.pos + offset,
            n,
            value,
            s.skip(offset).value(n),
        );
    }
}

/// From the place `at` on, the bits are the end of a PDU: a Proprietary element, if there is one,
/// with its M-bit, the identifier 15, its length and its data, and an M-bit of 0. Behind it stands
/// the place `end`.
pub open spec fn ends_with(
    all: Seq<bool>,
    at: int,
    field: Option<Type3FieldGeneric>,
    end: int,
) -> bool {
    match field {
        None => at + 1 == end && !all[at],
        Some(f) => {
            &&& at + 17 + f.len == end
            &&& all[at]
            &&& bits::holds(all, at + 1, 4, 15)
            &&& bits::holds(all, at + 5, 11, f.len as nat)
            &&& bits::holds(all, at + 16, f.len as int, f.data as nat)
            &&& !all[at + 16 + f.len]
        },
    }
}

/// The end of a PDU that is sent.
proof fn lemma_end_bits(before: Seq<bool>, field: Option<Type3FieldGeneric>)
    ensures
        ({
            let all = before + elements::proprietary_and_end_bits(field);
            ends_with(all, before.len() as int, field, all.len() as int)
        }),
{
    if let Some(f) = field {
        let element = typed::type3_bits(elements::PROPRIETARY, f.contents());
        let all = before + elements::proprietary_and_end_bits(field);
        laws::law_type3_layout(elements::PROPRIETARY, f.contents());
        laws::law_type3_contents(f);
        let n = f.len as int;
        assert(element.subrange(16, 16 + n) =~= element.skip(16));
        assert(f.contents().subrange(0, 0 + n) =~= f.contents());
        bits::lemma_holds(f.contents(), 0, n, f.data as nat);
        bits::lemma_holds(element, 16, n, f.data as nat);
        assert(all =~= before + element + seq![false]);
        bits::lemma_holds_within(before, element, seq![false], 1, 4, 15);
        bits::lemma_holds_within(before, element, seq![false], 5, 11, f.len as nat);
        bits::lemma_holds_within(before, element, seq![false], 16, n, f.data as nat);
        assert(all[before.len() as int] == element[0]);
    }
}

/// The end of a PDU that is written stands at the cursor.
pub proof fn law_the_end_is_sent(field: Option<Type3FieldGeneric>)
    ensures
        forall|b: &mut BitBuffer, r: Result<(), PduParseErr>|
            b@.well_formed() && #[trigger] call_ensures(
                elements::write_proprietary_and_end,
                (b, &field),
                r,
            ) ==> {
                &&& r is Ok
                &&& exists|end: int| #[trigger]
                    ends_with(final(b)@.bits, b@.pos, field, end) && bitbuffer::wrote(
                        b@,
                        final(b)@,
                        end - b@.pos,
                    )
            },
{
    assert forall|b: &mut BitBuffer, r: Result<(), PduParseErr>|
        b@.well_formed() && #[trigger] call_ensures(
            elements::write_proprietary_and_end,
            (b, &field),
            r,
        ) implies exists|end: int| #[trigger]
        ends_with(final(b)@.bits, b@.pos, field, end) && bitbuffer::wrote(
            b@,
            final(b)@,
            end - b@.pos,
        ) by {
        let new = elements::proprietary_and_end_bits(field);
        let none = Seq::<bool>::empty();
        lemma_end_bits(none, field);
        assert(none + new =~= new);
        bitbuffer::lemma_write_is_wrote(b@, new);
        lemma_end_is_moved(b@, new, 0, field, new.len() as int);
        assert(ends_with(final(b)@.bits, b@.pos, field, b@.pos + new.len()));
    }
}

/// The end of what is written at the cursor is an end in the buffer.
proof fn lemma_end_is_moved(
    s: BitState,
    new: Seq<bool>,
    at: int,
    field: Option<Type3FieldGeneric>,
    end: int,
)
    requires
        s.well_formed(),
        0 <= at,
        end <= new.len(),
        ends_with(new, at, field, end),
    ensures
        ends_with(s.write(new).bits, s.pos + at, field, s.pos + end),
{
    let t = s.write(new);
    bitbuffer::lemma_write_is_wrote(s, new);
    lemma_bit_is_moved(s, new, at);
    if let Some(f) = field {
        laws::lemma_written_field(s, new, at + 1, 4, 15);
        laws::lemma_written_field(s, new, at + 5, 11, f.len as nat);
        laws::lemma_written_field(s, new, at + 16, f.len as int, f.data as nat);
        lemma_bit_is_moved(s, new, at + 16 + f.len);
    }
}

/// A bit of what is written at the cursor is a bit of the buffer.
proof fn lemma_bit_is_moved(s: BitState, new: Seq<bool>, at: int)
    requires
        s.well_formed(),
        0 <= at < new.len(),
    ensures
        s.write(new).bits[s.pos + at] == new[at],
{
    bitbuffer::lemma_write_is_wrote(s, new);
    assert(s.write(new).bits.subrange(s.pos, s.pos + new.len())[at] == new[at]);
}

/// The end of a PDU that is received: behind the Proprietary element, which is the type 3 element
/// with the identifier 15, and which may be missing, an M-bit of 0 has to follow. Without an O-bit
/// nothing is read.
pub proof fn law_the_end_is_received(obit: bool)
    ensures
        forall|b: &mut BitBuffer, r: Result<Option<Type3FieldGeneric>, PduParseErr>|
            b@.well_formed() && #[trigger] call_ensures(
                elements::parse_proprietary_and_end,
                (obit, b),
                r,
            ) ==> {
                &&& (r, final(b)@) == elements::proprietary_and_end(obit, b@)
                &&& !obit ==> r == Ok::<_, PduParseErr>(None::<Type3FieldGeneric>) && final(b)@
                    == b@
                &&& obit ==> match typed::type3_generic(true, b@, 15) {
                    (Err(e), t) => r == Err::<Option<Type3FieldGeneric>, _>(e) && final(b)@ == t,
                    (Ok(field), t) => {
                        &&& t.pos >= t.bits.len() ==> r == Err::<Option<Type3FieldGeneric>, _>(
                            PduParseErr::BufferEnded { field: Some("trailing_obit") },
                        ) && final(b)@ == t
                        &&& t.pos < t.bits.len() && t.bits[t.pos] ==> r == Err::<
                            Option<Type3FieldGeneric>,
                            _,
                        >(PduParseErr::InvalidTrailingMbitValue) && bitbuffer::moved(
                            t,
                            final(b)@,
                            t.pos + 1,
                        )
                        &&& t.pos < t.bits.len() && !t.bits[t.pos] ==> r == Ok::<_, PduParseErr>(
                            field,
                        ) && bitbuffer::moved(t, final(b)@, t.pos + 1)
                    },
                }
            },
{
}

/// The mandatory part of D-AUTHENTICATION as it is sent: the PDU type 0001, two bits of the
/// sub-type, and then
///
/// - DEMAND (00): RAND1 in 80 bits, RS in 80 bits, and the mutual authentication flag;
/// - RESPONSE (01): RES2 in 32 bits;
/// - RESULT (10): the result in one bit;
/// - REJECT (11): the reject reason in 3 bits.
///
/// A value that is missing is sent as zeros.
pub proof fn law_d_authentication_is_sent_bit_for_bit(pdu: DAuthentication)
    ensures
        forall|b: &mut BitBuffer, r: Result<(), PduParseErr>|
            b@.well_formed() && #[trigger] call_ensures(DAuthentication::to_bitbuf, (&pdu, b), r)
                ==> {
                let (f, p) = (final(b)@.bits, b@.pos);
                &&& r is Ok
                &&& !f[p] && !f[p + 1] && !f[p + 2] && f[p + 3]
                &&& pdu.sub_type is Demand ==> {
                    &&& !f[p + 4] && !f[p + 5]
                    &&& pdu.rand1 matches Some(v) ==> bits::holds(f, p + 6, 80, v as nat)
                    &&& pdu.rand1 is None ==> bits::holds(f, p + 6, 80, 0)
                    &&& pdu.rs matches Some(v) ==> bits::holds(f, p + 86, 80, v as nat)
                    &&& pdu.rs is None ==> bits::holds(f, p + 86, 80, 0)
                    &&& f[p + 166] <==> pdu.mutual_authentication_flag == Some(true)
                }
                &&& pdu.sub_type is Response ==> {
                    &&& !f[p + 4] && f[p + 5]
                    &&& pdu.res2 matches Some(v) ==> bits::holds(f, p + 6, 32, v as nat)
                    &&& pdu.res2 is None ==> bits::holds(f, p + 6, 32, 0)
                }
                &&& pdu.sub_type is Result ==> {
                    &&& f[p + 4] && !f[p + 5]
                    &&& f[p + 6] <==> pdu.result == Some(true)
                }
                &&& pdu.sub_type is Reject ==> {
                    &&& f[p + 4] && f[p + 5]
                    &&& pdu.reject_reason matches Some(v) ==> bits::holds(f, p + 6, 3, v as nat)
                    &&& pdu.reject_reason is None ==> bits::holds(f, p + 6, 3, 0)
                }
            },
{
    assert forall|s: BitState| #[trigger] s.well_formed() implies {
        let (f, p) = (s.write(pdu.bits()).bits, s.pos);
        &&& !f[p] && !f[p + 1] && !f[p + 2] && f[p + 3]
        &&& f[p + 4] == (pdu.sub_type is Result || pdu.sub_type is Reject)
        &&& f[p + 5] == (pdu.sub_type is Response || pdu.sub_type is Reject)
        &&& pdu.sub_type is Demand ==> {
            &&& bits::holds(f, p + 6, 80, elements::long_or_zero(pdu.rand1) as nat)
            &&& bits::holds(f, p + 86, 80, elements::long_or_zero(pdu.rs) as nat)
            &&& f[p + 166] == (pdu.mutual_authentication_flag == Some(true))
        }
        &&& pdu.sub_type is Response ==> bits::holds(f, p + 6, 32, elements::or_zero(pdu.res2))
        &&& pdu.sub_type is Result ==> f[p + 6] == (pdu.result == Some(true))
        &&& pdu.sub_type is Reject ==> bits::holds(
            f,
            p + 6,
            3,
            elements::reason_or_zero(pdu.reject_reason) as nat,
        )
    } by {
        lemma_d_start(s, pdu);
        lemma_d_body(s, pdu);
    }
}

/// The optional part of D-AUTHENTICATION as it is sent, `o` bits behind the start: the O-bit and,
/// where that is set, a P-bit, with the address extension in 24 bits where it is set too, and the
/// end. The O-bit is set where there is an optional element. Nothing else is written.
pub proof fn law_d_optional_part_is_sent(pdu: DAuthentication, o: int)
    requires
        pdu.sub_type is Demand ==> o == 167,
        pdu.sub_type is Response ==> o == 38,
        pdu.sub_type is Result ==> o == 7,
        pdu.sub_type is Reject ==> o == 9,
    ensures
        forall|b: &mut BitBuffer, r: Result<(), PduParseErr>|
            b@.well_formed() && #[trigger] call_ensures(DAuthentication::to_bitbuf, (&pdu, b), r)
                ==> {
                let (f, p) = (final(b)@.bits, b@.pos);
                let n = final(b)@.pos - p;
                &&& bitbuffer::wrote(b@, final(b)@, n)
                &&& f[p + o] <==> pdu.address_extension is Some || pdu.proprietary is Some
                &&& !f[p + o] ==> n == o + 1
                &&& f[p + o] && pdu.address_extension is None ==> !f[p + o + 1] && ends_with(
                    f,
                    p + o + 2,
                    pdu.proprietary,
                    p + n,
                )
                &&& f[p + o] ==> (pdu.address_extension matches Some(v) ==> {
                    &&& f[p + o + 1]
                    &&& bits::holds(f, p + o + 2, 24, v as nat)
                    &&& ends_with(f, p + o + 26, pdu.proprietary, p + n)
                })
            },
{
    assert forall|s: BitState| #[trigger] s.well_formed() implies {
        let f = s.write(pdu.bits()).bits;
        let n = pdu.bits().len() as int;
        let p = s.pos;
        &&& bitbuffer::wrote(s, s.write(pdu.bits()), n)
        &&& f[p + o] == (pdu.address_extension is Some || pdu.proprietary is Some)
        &&& !f[p + o] ==> n == o + 1
        &&& f[p + o] && pdu.address_extension is None ==> !f[p + o + 1] && ends_with(
            f,
            p + o + 2,
            pdu.proprietary,
            p + n,
        )
        &&& f[p + o] ==> (pdu.address_extension matches Some(v) ==> {
            &&& f[p + o + 1]
            &&& bits::holds(f, p + o + 2, 24, v as nat)
            &&& ends_with(f, p + o + 26, pdu.proprietary, p + n)
        })
    } by {
        lemma_d_body(s, pdu);
        lemma_d_tail(s, pdu);
        bitbuffer::lemma_write_is_wrote(s, pdu.bits());
    }
}

/// The six bits that a PDU starts with.
proof fn lemma_start(pdu_type: nat, code: nat)
    requires
        pdu_type <= 1,
        code <= 3,
    ensures
        ({
            let start = bits::value_bits(pdu_type, 4) + bits::value_bits(code, 2);
            &&& start.len() == 6
            &&& !start[0] && !start[1] && !start[2]
            &&& start[3] == (pdu_type == 1)
            &&& start[4] == (code >= 2)
            &&& start[5] == (code % 2 == 1)
        }),
{
    reveal_with_fuel(bits::value_bits, 5);
}

proof fn lemma_d_start(s: BitState, pdu: DAuthentication)
    requires
        s.well_formed(),
    ensures
        ({
            let (f, p) = (s.write(pdu.bits()).bits, s.pos);
            &&& pdu.bits().len() >= 6 + pdu.body_bits().len() + pdu.tail_bits().len()
            &&& !f[p] && !f[p + 1] && !f[p + 2] && f[p + 3]
            &&& f[p + 4] == (pdu.sub_type is Result || pdu.sub_type is Reject)
            &&& f[p + 5] == (pdu.sub_type is Response || pdu.sub_type is Reject)
        }),
{
    let new = pdu.bits();
    let start = bits::value_bits(elements::D_AUTHENTICATION as nat, 4) + bits::value_bits(
        pdu.sub_type.code() as nat,
        2,
    );
    lemma_start(elements::D_AUTHENTICATION as nat, pdu.sub_type.code() as nat);
    assert(new =~= start + (pdu.body_bits() + pdu.tail_bits()));
    assert forall|i: int| 0 <= i < 6 implies s.write(new).bits[s.pos + i] == #[trigger] start[i] by {
        lemma_bit_is_moved(s, new, i);
    }
    assert(s.write(new).bits[s.pos + 0] == start[0]);
    assert(s.write(new).bits[s.pos + 1] == start[1]);
    assert(s.write(new).bits[s.pos + 2] == start[2]);
    assert(s.write(new).bits[s.pos + 3] == start[3]);
    assert(s.write(new).bits[s.pos + 4] == start[4]);
    assert(s.write(new).bits[s.pos + 5] == start[5]);
}

/// A field of the mandatory part stands six bits further on in the PDU.
proof fn lemma_in_body(
    s: BitState,
    start: Seq<bool>,
    body: Seq<bool>,
    tail: Seq<bool>,
    from: int,
    n: int,
    value: nat,
)
    requires
        s.well_formed(),
        start.len() == 6,
        0 <= from,
        0 <= n,
        bits::holds(body, from, n, value),
    ensures
        bits::holds(s.write(start + body + tail).bits, s.pos + 6 + from, n, value),
{
    bits::lemma_holds_within(start, body, tail, from, n, value);
    laws::lemma_written_field(s, start + body + tail, 6 + from, n, value);
}

proof fn lemma_d_body(s: BitState, pdu: DAuthentication)
    requires
        s.well_formed(),
    ensures
        ({
            let (f, p) = (s.write(pdu.bits()).bits, s.pos);
            &&& pdu.sub_type is Demand ==> {
                &&& pdu.body_bits().len() == 161
                &&& bits::holds(f, p + 6, 80, elements::long_or_zero(pdu.rand1) as nat)
                &&& bits::holds(f, p + 86, 80, elements::long_or_zero(pdu.rs) as nat)
                &&& f[p + 166] == (pdu.mutual_authentication_flag == Some(true))
            }
            &&& pdu.sub_type is Response ==> {
                &&& pdu.body_bits().len() == 32
                &&& bits::holds(f, p + 6, 32, elements::or_zero(pdu.res2))
            }
            &&& pdu.sub_type is Result ==> {
                &&& pdu.body_bits().len() == 1
                &&& f[p + 6] == (pdu.result == Some(true))
            }
            &&& pdu.sub_type is Reject ==> {
                &&& pdu.body_bits().len() == 3
                &&& bits::holds(f, p + 6, 3, elements::reason_or_zero(pdu.reject_reason) as nat)
            }
        }),
{
    let none = Seq::<bool>::empty();
    let new = pdu.bits();
    let (body, tail) = (pdu.body_bits(), pdu.tail_bits());
    let start = bits::value_bits(elements::D_AUTHENTICATION as nat, 4) + bits::value_bits(
        pdu.sub_type.code() as nat,
        2,
    );
    bits::lemma_value_bits_len(elements::D_AUTHENTICATION as nat, 4);
    bits::lemma_value_bits_len(pdu.sub_type.code() as nat, 2);
    match pdu.sub_type {
        AuthenticationSubtype::Demand => {
            let rand1 = elements::long_or_zero(pdu.rand1) as nat;
            let rs = elements::long_or_zero(pdu.rs) as nat;
            let flag = seq![pdu.mutual_authentication_flag == Some(true)];
            let (x, y) = (bits::value_bits(rand1, 80), bits::value_bits(rs, 80));
            bits::lemma_value_bits_within(none, rand1, 80, y + flag);
            assert(none + x + (y + flag) =~= body);
            bits::lemma_value_bits_within(x, rs, 80, flag);
            lemma_in_body(s, start, body, tail, 0, 80, rand1);
            lemma_in_body(s, start, body, tail, 80, 80, rs);
            lemma_bit_is_moved(s, new, 166);
        },
        AuthenticationSubtype::Response => {
            let res2 = elements::or_zero(pdu.res2);
            bits::lemma_value_bits_within(none, res2, 32, none);
            assert(none + bits::value_bits(res2, 32) + none =~= body);
            lemma_in_body(s, start, body, tail, 0, 32, res2);
        },
        AuthenticationSubtype::Result => {
            lemma_bit_is_moved(s, new, 6);
        },
        AuthenticationSubtype::Reject => {
            let reason = elements::reason_or_zero(pdu.reject_reason) as nat;
            bits::lemma_value_bits_within(none, reason, 3, none);
            assert(none + bits::value_bits(reason, 3) + none =~= body);
            lemma_in_body(s, start, body, tail, 0, 3, reason);
        },
    }
}

proof fn lemma_d_tail(s: BitState, pdu: DAuthentication)
    requires
        s.well_formed(),
    ensures
        ({
            let f = s.write(pdu.bits()).bits;
            let n = pdu.bits().len() as int;
            let o = s.pos + 6 + pdu.body_bits().len();
            let m: int = if pdu.address_extension is Some {
                o + 26
            } else {
                o + 2
            };
            &&& f[o] == (pdu.address_extension is Some || pdu.proprietary is Some)
            &&& !f[o] ==> s.pos + n == o + 1
            &&& f[o] ==> {
                &&& f[o + 1] == (pdu.address_extension is Some)
                &&& pdu.address_extension matches Some(v) ==> bits::holds(f, o + 2, 24, v as nat)
                &&& ends_with(f, m, pdu.proprietary, s.pos + n)
            }
        }),
{
    let new = pdu.bits();
    let before = bits::value_bits(elements::D_AUTHENTICATION as nat, 4) + bits::value_bits(
        pdu.sub_type.code() as nat,
        2,
    ) + pdu.body_bits();
    let tail = pdu.tail_bits();
    bits::lemma_value_bits_len(elements::D_AUTHENTICATION as nat, 4);
    bits::lemma_value_bits_len(pdu.sub_type.code() as nat, 2);
    let o = 6int + pdu.body_bits().len();
    assert(before.len() == o);
    assert(new == before + tail);
    lemma_bit_is_moved(s, new, o);
    assert(new[o] == tail[0]);
    if pdu.has_optional() {
        let address = typed::type2_bits(pdu.address_extension, 24);
        let end = elements::proprietary_and_end_bits(pdu.proprietary);
        laws::law_type2_layout(pdu.address_extension, 24);
        assert(new =~= before + seq![true] + address + end);
        lemma_end_bits(before + seq![true] + address, pdu.proprietary);
        let m = o + 1 + address.len();
        lemma_end_is_moved(s, new, m, pdu.proprietary, new.len() as int);
        assert(new[o + 1] == address[0]);
        lemma_bit_is_moved(s, new, o + 1);
        if let Some(v) = pdu.address_extension {
            bits::lemma_holds_within(before + seq![true], address, end, 1, 24, v as nat);
            laws::lemma_written_field(s, new, o + 2, 24, v as nat);
        }
    }
}

/// The mandatory part of U-AUTHENTICATION as it is sent: the PDU type 0000, two bits of the
/// sub-type, and then
///
/// - DEMAND (00): RAND2 in 80 bits;
/// - RESPONSE (01): RES1 in 32 bits, the mutual authentication flag and, where that is set, RAND2
///   in 80 bits;
/// - RESULT (10): R2 in one bit, the mutual authentication flag and, where that is set, RES1 in 32
///   bits;
/// - REJECT (11): the reject reason in 3 bits.
///
/// A value that is missing is sent as zeros.
pub proof fn law_u_authentication_is_sent_bit_for_bit(pdu: UAuthentication)
    ensures
        forall|b: &mut BitBuffer, r: Result<(), PduParseErr>|
            b@.well_formed() && #[trigger] call_ensures(UAuthentication::to_bitbuf, (&pdu, b), r)
                ==> {
                let (f, p) = (final(b)@.bits, b@.pos);
                let mutual = pdu.mutual_authentication_flag == Some(true);
                &&& r is Ok
                &&& !f[p] && !f[p + 1] && !f[p + 2] && !f[p + 3]
                &&& pdu.sub_type is Demand ==> {
                    &&& !f[p + 4] && !f[p + 5]
                    &&& pdu.rand2 matches Some(v) ==> bits::holds(f, p + 6, 80, v as nat)
                    &&& pdu.rand2 is None ==> bits::holds(f, p + 6, 80, 0)
                }
                &&& pdu.sub_type is Response ==> {
                    &&& !f[p + 4] && f[p + 5]
                    &&& pdu.res1 matches Some(v) ==> bits::holds(f, p + 6, 32, v as nat)
                    &&& pdu.res1 is None ==> bits::holds(f, p + 6, 32, 0)
                    &&& f[p + 38] <==> mutual
                    &&& mutual ==> (pdu.rand2 matches Some(v) ==> bits::holds(
                        f,
                        p + 39,
                        80,
                        v as nat,
                    ))
                    &&& mutual && pdu.rand2 is None ==> bits::holds(f, p + 39, 80, 0)
                }
                &&& pdu.sub_type is Result ==> {
                    &&& f[p + 4] && !f[p + 5]
                    &&& f[p + 6] <==> pdu.result == Some(true)
                    &&& f[p + 7] <==> mutual
                    &&& mutual ==> (pdu.res1 matches Some(v) ==> bits::holds(
                        f,
                        p + 8,
                        32,
                        v as nat,
                    ))
                    &&& mutual && pdu.res1 is None ==> bits::holds(f, p + 8, 32, 0)
                }
                &&& pdu.sub_type is Reject ==> {
                    &&& f[p + 4] && f[p + 5]
                    &&& pdu.reject_reason matches Some(v) ==> bits::holds(f, p + 6, 3, v as nat)
                    &&& pdu.reject_reason is None ==> bits::holds(f, p + 6, 3, 0)
                }
            },
{
    assert forall|s: BitState| #[trigger] s.well_formed() implies {
        let (f, p) = (s.write(pdu.bits()).bits, s.pos);
        let mutual = pdu.mutual_authentication_flag == Some(true);
        &&& !f[p] && !f[p + 1] && !f[p + 2] && !f[p + 3]
        &&& f[p + 4] == (pdu.sub_type is Result || pdu.sub_type is Reject)
        &&& f[p + 5] == (pdu.sub_type is Response || pdu.sub_type is Reject)
        &&& pdu.sub_type is Demand ==> bits::holds(
            f,
            p + 6,
            80,
            elements::long_or_zero(pdu.rand2) as nat,
        )
        &&& pdu.sub_type is Response ==> {
            &&& bits::holds(f, p + 6, 32, elements::or_zero(pdu.res1))
            &&& f[p + 38] == mutual
            &&& mutual ==> bits::holds(f, p + 39, 80, elements::long_or_zero(pdu.rand2) as nat)
        }
        &&& pdu.sub_type is Result ==> {
            &&& f[p + 6] == (pdu.result == Some(true))
            &&& f[p + 7] == mutual
            &&& mutual ==> bits::holds(f, p + 8, 32, elements::or_zero(pdu.res1))
        }
        &&& pdu.sub_type is Reject ==> bits::holds(
            f,
            p + 6,
            3,
            elements::reason_or_zero(pdu.reject_reason) as nat,
        )
    } by {
        lemma_u_start(s, pdu);
        lemma_u_body(s, pdu);
    }
}

/// The optional part of U-AUTHENTICATION as it is sent, `o` bits behind the start: the O-bit and,
/// where that is set, the end. The O-bit is set where there is a Proprietary element. Nothing else
/// is written.
pub proof fn law_u_optional_part_is_sent(pdu: UAuthentication, o: int)
    requires
        pdu.sub_type is Demand ==> o == 86,
        pdu.sub_type is Response && pdu.mutual_authentication_flag == Some(true) ==> o == 119,
        pdu.sub_type is Response && pdu.mutual_authentication_flag != Some(true) ==> o == 39,
        pdu.sub_type is Result && pdu.mutual_authentication_flag == Some(true) ==> o == 40,
        pdu.sub_type is Result && pdu.mutual_authentication_flag != Some(true) ==> o == 8,
        pdu.sub_type is Reject ==> o == 9,
    ensures
        forall|b: &mut BitBuffer, r: Result<(), PduParseErr>|
            b@.well_formed() && #[trigger] call_ensures(UAuthentication::to_bitbuf, (&pdu, b), r)
                ==> {
                let (f, p) = (final(b)@.bits, b@.pos);
                let n = final(b)@.pos - p;
                &&& bitbuffer::wrote(b@, final(b)@, n)
                &&& f[p + o] <==> pdu.proprietary is Some
                &&& !f[p + o] ==> n == o + 1
                &&& f[p + o] ==> ends_with(f, p + o + 1, pdu.proprietary, p + n)
            },
{
    assert forall|s: BitState| #[trigger] s.well_formed() implies {
        let f = s.write(pdu.bits()).bits;
        let n = pdu.bits().len() as int;
        let p = s.pos;
        &&& bitbuffer::wrote(s, s.write(pdu.bits()), n)
        &&& f[p + o] == (pdu.proprietary is Some)
        &&& !f[p + o] ==> n == o + 1
        &&& f[p + o] ==> ends_with(f, p + o + 1, pdu.proprietary, p + n)
    } by {
        lemma_u_body(s, pdu);
        lemma_u_tail(s, pdu);
        bitbuffer::lemma_write_is_wrote(s, pdu.bits());
    }
}

proof fn lemma_u_start(s: BitState, pdu: UAuthentication)
    requires
        s.well_formed(),
    ensures
        ({
            let (f, p) = (s.write(pdu.bits()).bits, s.pos);
            &&& !f[p] && !f[p + 1] && !f[p + 2] && !f[p + 3]
            &&& f[p + 4] == (pdu.sub_type is Result || pdu.sub_type is Reject)
            &&& f[p + 5] == (pdu.sub_type is Response || pdu.sub_type is Reject)
        }),
{
    let new = pdu.bits();
    let start = bits::value_bits(elements::U_AUTHENTICATION as nat, 4) + bits::value_bits(
        pdu.sub_type.code() as nat,
        2,
    );
    lemma_start(elements::U_AUTHENTICATION as nat, pdu.sub_type.code() as nat);
    assert(new =~= start + (pdu.body_bits() + pdu.tail_bits()));
    assert forall|i: int| 0 <= i < 6 implies s.write(new).bits[s.pos + i] == #[trigger] start[i] by {
        lemma_bit_is_moved(s, new, i);
    }
    assert(s.write(new).bits[s.pos + 0] == start[0]);
    assert(s.write(new).bits[s.pos + 1] == start[1]);
    assert(s.write(new).bits[s.pos + 2] == start[2]);
    assert(s.write(new).bits[s.pos + 3] == start[3]);
    assert(s.write(new).bits[s.pos + 4] == start[4]);
    assert(s.write(new).bits[s.pos + 5] == start[5]);
}

proof fn lemma_u_body(s: BitState, pdu: UAuthentication)
    requires
        s.well_formed(),
    ensures
        ({
            let (f, p) = (s.write(pdu.bits()).bits, s.pos);
            let mutual = pdu.mutual_authentication_flag == Some(true);
            &&& pdu.sub_type is Demand ==> {
                &&& pdu.body_bits().len() == 80
                &&& bits::holds(f, p + 6, 80, elements::long_or_zero(pdu.rand2) as nat)
            }
            &&& pdu.sub_type is Response ==> {
                &&& pdu.body_bits().len() == if mutual { 113nat } else { 33nat }
                &&& bits::holds(f, p + 6, 32, elements::or_zero(pdu.res1))
                &&& f[p + 38] == mutual
                &&& mutual ==> bits::holds(f, p + 39, 80, elements::long_or_zero(pdu.rand2) as nat)
            }
            &&& pdu.sub_type is Result ==> {
                &&& pdu.body_bits().len() == if mutual { 34nat } else { 2nat }
                &&& f[p + 6] == (pdu.result == Some(true))
                &&& f[p + 7] == mutual
                &&& mutual ==> bits::holds(f, p + 8, 32, elements::or_zero(pdu.res1))
            }
            &&& pdu.sub_type is Reject ==> {
                &&& pdu.body_bits().len() == 3
                &&& bits::holds(f, p + 6, 3, elements::reason_or_zero(pdu.reject_reason) as nat)
            }
        }),
{
    let none = Seq::<bool>::empty();
    let new = pdu.bits();
    let (body, tail) = (pdu.body_bits(), pdu.tail_bits());
    let mutual = pdu.mutual_authentication_flag == Some(true);
    let start = bits::value_bits(elements::U_AUTHENTICATION as nat, 4) + bits::value_bits(
        pdu.sub_type.code() as nat,
        2,
    );
    bits::lemma_value_bits_len(elements::U_AUTHENTICATION as nat, 4);
    bits::lemma_value_bits_len(pdu.sub_type.code() as nat, 2);
    let rand2 = elements::long_or_zero(pdu.rand2) as nat;
    let res1 = elements::or_zero(pdu.res1);
    let (x, y) = (bits::value_bits(rand2, 80), bits::value_bits(res1, 32));
    bits::lemma_value_bits_len(rand2, 80);
    bits::lemma_value_bits_len(res1, 32);
    match pdu.sub_type {
        AuthenticationSubtype::Demand => {
            bits::lemma_value_bits_within(none, rand2, 80, none);
            assert(none + x + none =~= body);
            lemma_in_body(s, start, body, tail, 0, 80, rand2);
        },
        AuthenticationSubtype::Response => {
            let rest = if mutual { x } else { none };
            bits::lemma_value_bits_within(none, res1, 32, seq![mutual] + rest);
            assert(none + y + (seq![mutual] + rest) =~= body);
            lemma_in_body(s, start, body, tail, 0, 32, res1);
            assert(new[38] == mutual);
            lemma_bit_is_moved(s, new, 38);
            if mutual {
                bits::lemma_value_bits_within(y + seq![mutual], rand2, 80, none);
                assert(y + seq![mutual] + x + none =~= body);
                lemma_in_body(s, start, body, tail, 33, 80, rand2);
            }
        },
        AuthenticationSubtype::Result => {
            let result = pdu.result == Some(true);
            assert(new[6] == result && new[7] == mutual);
            lemma_bit_is_moved(s, new, 6);
            lemma_bit_is_moved(s, new, 7);
            if mutual {
                bits::lemma_value_bits_within(seq![result] + seq![mutual], res1, 32, none);
                assert(seq![result] + seq![mutual] + y + none =~= body);
                lemma_in_body(s, start, body, tail, 2, 32, res1);
            }
        },
        AuthenticationSubtype::Reject => {
            let reason = elements::reason_or_zero(pdu.reject_reason) as nat;
            bits::lemma_value_bits_within(none, reason, 3, none);
            assert(none + bits::value_bits(reason, 3) + none =~= body);
            lemma_in_body(s, start, body, tail, 0, 3, reason);
        },
    }
}

proof fn lemma_u_tail(s: BitState, pdu: UAuthentication)
    requires
        s.well_formed(),
    ensures
        ({
            let f = s.write(pdu.bits()).bits;
            let n = pdu.bits().len() as int;
            let o = s.pos + 6 + pdu.body_bits().len();
            &&& f[o] == (pdu.proprietary is Some)
            &&& !f[o] ==> s.pos + n == o + 1
            &&& f[o] ==> ends_with(f, o + 1, pdu.proprietary, s.pos + n)
        }),
{
    let new = pdu.bits();
    let before = bits::value_bits(elements::U_AUTHENTICATION as nat, 4) + bits::value_bits(
        pdu.sub_type.code() as nat,
        2,
    ) + pdu.body_bits();
    let tail = pdu.tail_bits();
    bits::lemma_value_bits_len(elements::U_AUTHENTICATION as nat, 4);
    bits::lemma_value_bits_len(pdu.sub_type.code() as nat, 2);
    let o = 6int + pdu.body_bits().len();
    assert(before.len() == o);
    assert(new == before + tail);
    lemma_bit_is_moved(s, new, o);
    assert(new[o] == tail[0]);
    if pdu.proprietary is Some {
        let end = elements::proprietary_and_end_bits(pdu.proprietary);
        assert(new =~= before + seq![true] + end);
        lemma_end_bits(before + seq![true], pdu.proprietary);
        lemma_end_is_moved(s, new, o + 1, pdu.proprietary, new.len() as int);
    }
}

/// Reading stopped at the place `at`, for want of the bits of the field called `name`.
pub open spec fn ran_out<T>(
    s: BitState,
    after: BitState,
    r: Result<T, PduParseErr>,
    name: &'static str,
    at: int,
) -> bool {
    r == Err::<T, _>(PduParseErr::BufferEnded { field: Some(name) }) && bitbuffer::moved(
        s,
        after,
        at,
    )
}

/// What the first six bits of what is received say. Where the first four are not the PDU type 0001
/// of D-AUTHENTICATION, the PDU is of another type, which the error names. Bits that are missing
/// are an error.
pub proof fn law_d_authentication_is_told_by_its_type(found: u64)
    ensures
        forall|b: &mut BitBuffer, r: Result<DAuthentication, PduParseErr>|
            b@.well_formed() && #[trigger] call_ensures(DAuthentication::from_bitbuf, (b,), r)
                ==> {
                let (s, t) = (b@, final(b)@);
                let left = s.bits.len() - s.pos;
                &&& left < 4 ==> ran_out(s, t, r, "pdu_type", s.pos)
                &&& left >= 4 && found < 16 && found != 1 && bits::holds(
                    s.bits,
                    s.pos,
                    4,
                    found as nat,
                ) ==> r == Err::<DAuthentication, _>(
                    PduParseErr::InvalidPduType { expected: 1, found },
                ) && bitbuffer::moved(s, t, s.pos + 4)
                &&& 4 <= left < 6 && bits::holds(s.bits, s.pos, 4, 1) ==> ran_out(
                    s,
                    t,
                    r,
                    "authentication_sub_type",
                    s.pos + 4,
                )
            },
{
    lemma2_to64();
    assert forall|s: BitState| #[trigger] s.well_formed() && s.bits.len() - s.pos >= 4 implies {
        &&& found < 16 ==> (bits::holds(s.bits, s.pos, 4, found as nat) <==> s.value(4) == found)
        &&& bits::holds(s.bits, s.pos, 4, 1) <==> s.value(4) == 1
    } by {
        assert(s.skip(0) == s);
        lemma_is_number(s, 0, 4, 1);
        if found < 16 {
            lemma_is_number(s, 0, 4, found as nat);
        }
    }
}

/// The same of U-AUTHENTICATION, whose PDU type is 0000.
pub proof fn law_u_authentication_is_told_by_its_type(found: u64)
    ensures
        forall|b: &mut BitBuffer, r: Result<UAuthentication, PduParseErr>|
            b@.well_formed() && #[trigger] call_ensures(UAuthentication::from_bitbuf, (b,), r)
                ==> {
                let (s, t) = (b@, final(b)@);
                let left = s.bits.len() - s.pos;
                &&& left < 4 ==> ran_out(s, t, r, "pdu_type", s.pos)
                &&& left >= 4 && 0 < found < 16 && bits::holds(s.bits, s.pos, 4, found as nat)
                    ==> r == Err::<UAuthentication, _>(
                    PduParseErr::InvalidPduType { expected: 0, found },
                ) && bitbuffer::moved(s, t, s.pos + 4)
                &&& 4 <= left < 6 && bits::holds(s.bits, s.pos, 4, 0) ==> ran_out(
                    s,
                    t,
                    r,
                    "authentication_sub_type",
                    s.pos + 4,
                )
            },
{
    lemma2_to64();
    assert forall|s: BitState| #[trigger] s.well_formed() && s.bits.len() - s.pos >= 4 implies {
        &&& found < 16 ==> (bits::holds(s.bits, s.pos, 4, found as nat) <==> s.value(4) == found)
        &&& bits::holds(s.bits, s.pos, 4, 0) <==> s.value(4) == 0
    } by {
        assert(s.skip(0) == s);
        lemma_is_number(s, 0, 4, 0);
        if found < 16 {
            lemma_is_number(s, 0, 4, found as nat);
        }
    }
}

/// The six bits that a PDU that is received starts with are these.
pub open spec fn starts_with(s: BitState, pdu_type: nat, code: nat) -> bool {
    &&& s.pos + 6 <= s.bits.len()
    &&& bits::holds(s.bits, s.pos, 4, pdu_type)
    &&& bits::holds(s.bits, s.pos + 4, 2, code)
}

/// What the start of a PDU says.
proof fn lemma_starts_with(s: BitState, pdu_type: nat, code: nat)
    requires
        s.well_formed(),
        pdu_type < 16,
        code < 4,
        starts_with(s, pdu_type, code),
    ensures
        s.value(4) == pdu_type,
        s.skip(4).value(2) == code,
{
    lemma2_to64();
    assert(s.skip(0) == s);
    lemma_is_number(s, 0, 4, pdu_type);
    lemma_is_number(s, 4, 2, code);
}

/// Behind its first six bits a PDU is read as its sub-type says.
proof fn lemma_d_parsed(s: BitState, sub_type: AuthenticationSubtype)
    requires
        s.well_formed(),
        starts_with(s, 1, sub_type.code() as nat),
    ensures
        d_authentication::parsed(s) == (match d_authentication::body(s.skip(6), sub_type) {
            (Err(e), v) => (Err(e), v),
            (Ok(known), v) => d_authentication::tail(v, known),
        }),
{
    authentication_subtype::law_subtype_codes_are_exact(sub_type, 0);
    lemma_starts_with(s, 1, sub_type.code() as nat);
    assert(s.skip(4).skip(2) == s.skip(6));
}

/// Behind its first six bits a PDU is read as its sub-type says.
proof fn lemma_u_parsed(s: BitState, sub_type: AuthenticationSubtype)
    requires
        s.well_formed(),
        starts_with(s, 0, sub_type.code() as nat),
    ensures
        u_authentication::parsed(s) == (match u_authentication::body(s.skip(6), sub_type) {
            (Err(e), v) => (Err(e), v),
            (Ok(known), v) => u_authentication::tail(v, known),
        }),
{
    authentication_subtype::law_subtype_codes_are_exact(sub_type, 0);
    lemma_starts_with(s, 0, sub_type.code() as nat);
    assert(s.skip(4).skip(2) == s.skip(6));
}

/// An 80-bit field holds a number that fits it exactly where that is its number.
proof fn lemma_is_number_80(s: BitState, offset: int, value: nat)
    requires
        s.well_formed(),
        0 <= offset,
        s.pos + offset + 80 <= s.bits.len(),
        value < 0x1_0000_0000_0000_0000_0000,
        bits::holds(s.bits, s.pos + offset, 80, value),
    ensures
        s.skip(offset).value(80) == value,
{
    elements::lemma_pow2_80();
    lemma_field_80(s, offset);
    bits::law_a_field_holds_one_number(
        s.bits,
        s.pos + offset,
        80,
        value,
        s.skip(offset).value(80),
    );
}

/// What the message holds at the cursor.
spec fn d_demand_at(s: BitState, known: DAuthentication) -> bool {
    let p = s.pos;
    &&& s.pos + 167 <= s.bits.len()
    &&& known.sub_type is Demand
    &&& known.rand1 matches Some(rand1)
    &&& rand1 < 0x1_0000_0000_0000_0000_0000
    &&& bits::holds(s.bits, p + 6, 80, rand1 as nat)
    &&& known.rs matches Some(rs)
    &&& rs < 0x1_0000_0000_0000_0000_0000
    &&& bits::holds(s.bits, p + 86, 80, rs as nat)
    &&& known.mutual_authentication_flag == Some(s.bits[p + 166])
    &&& known.reject_reason is None
    &&& known.res2 is None
    &&& known.result is None
    &&& known.address_extension is None
    &&& known.proprietary is None
}

/// D-AUTHENTICATION DEMAND as it is received: behind the first six bits RAND1 in 80, RS in the
/// next 80, and the mutual authentication flag.
/// It goes on with the optional part. Where bits are missing, the error names the field.
pub proof fn law_d_demand_is_received_bit_for_bit(known: DAuthentication)
    ensures
        forall|b: &mut BitBuffer, r: Result<DAuthentication, PduParseErr>|
            b@.well_formed() && starts_with(b@, 1, 0) && #[trigger] call_ensures(
                DAuthentication::from_bitbuf,
                (b,),
                r,
            ) ==> {
                let (s, t) = (b@, final(b)@);
                let (p, left) = (s.pos, s.bits.len() - s.pos);
                &&& {
                    &&& s.pos + 167 <= s.bits.len()
                    &&& known.sub_type is Demand
                    &&& known.rand1 matches Some(rand1)
                    &&& rand1 < 0x1_0000_0000_0000_0000_0000
                    &&& bits::holds(s.bits, p + 6, 80, rand1 as nat)
                    &&& known.rs matches Some(rs)
                    &&& rs < 0x1_0000_0000_0000_0000_0000
                    &&& bits::holds(s.bits, p + 86, 80, rs as nat)
                    &&& known.mutual_authentication_flag == Some(s.bits[p + 166])
                    &&& known.reject_reason is None
                    &&& known.res2 is None
                    &&& known.result is None
                    &&& known.address_extension is None
                    &&& known.proprietary is None
                } ==> (r, t) == d_authentication::tail(
                    s.at(p + 167),
                    known,
                )
                &&& left < 22 ==> ran_out(s, t, r, "rand1", p + 6)
                &&& 22 <= left < 86 ==> ran_out(s, t, r, "rand1", p + 22)
                &&& 86 <= left < 102 ==> ran_out(s, t, r, "rs", p + 86)
                &&& 102 <= left < 166 ==> ran_out(s, t, r, "rs", p + 102)
                &&& left == 166 ==> ran_out(s, t, r, "mutual_authentication_flag", p + 166)
            },
{
    assert forall|b: &mut BitBuffer, r: Result<DAuthentication, PduParseErr>|
        b@.well_formed() && starts_with(b@, 1, 0) && #[trigger] call_ensures(
            DAuthentication::from_bitbuf,
            (b,),
            r,
        ) implies {
        let (s, t) = (b@, final(b)@);
        let (p, left) = (s.pos, s.bits.len() - s.pos);
        &&& d_demand_at(s, known) ==> (r, t) == d_authentication::tail(s.at(p + 167), known)
        &&& left < 22 ==> ran_out(s, t, r, "rand1", p + 6)
        &&& 22 <= left < 86 ==> ran_out(s, t, r, "rand1", p + 22)
        &&& 86 <= left < 102 ==> ran_out(s, t, r, "rs", p + 86)
        &&& 102 <= left < 166 ==> ran_out(s, t, r, "rs", p + 102)
        &&& left == 166 ==> ran_out(s, t, r, "mutual_authentication_flag", p + 166)
    } by {
        lemma_d_demand_errors(b@);
        if d_demand_at(b@, known) {
            lemma_d_demand(b@, known);
        }
    }
}

proof fn lemma_d_demand_errors(s: BitState)
    requires
        s.well_formed(),
        starts_with(s, 1, 0),
    ensures
        ({
            let (r, t) = d_authentication::parsed(s);
            let (p, left) = (s.pos, s.bits.len() - s.pos);
            &&& left < 22 ==> ran_out(s, t, r, "rand1", p + 6)
            &&& 22 <= left < 86 ==> ran_out(s, t, r, "rand1", p + 22)
            &&& 86 <= left < 102 ==> ran_out(s, t, r, "rs", p + 86)
            &&& 102 <= left < 166 ==> ran_out(s, t, r, "rs", p + 102)
            &&& left == 166 ==> ran_out(s, t, r, "mutual_authentication_flag", p + 166)
        }),
{
    lemma_d_parsed(s, AuthenticationSubtype::Demand);
}

proof fn lemma_d_demand(s: BitState, known: DAuthentication)
    requires
        s.well_formed(),
        starts_with(s, 1, 0),
        d_demand_at(s, known),
    ensures
        d_authentication::parsed(s) == d_authentication::tail(s.at(s.pos + 167), known),
{
    lemma2_to64();
    lemma_d_parsed(s, AuthenticationSubtype::Demand);
    let u = s.skip(6);
    let rand1 = known.rand1.unwrap();
    lemma_is_number_80(s, 6, rand1 as nat);
    assert(s.skip(6).value(80) as u128 == rand1);
    let rs = known.rs.unwrap();
    lemma_is_number_80(s, 86, rs as nat);
    assert(s.skip(86).value(80) as u128 == rs);
    assert(u.skip(80) == s.skip(86));
    assert(u.skip(80).skip(80) == s.skip(166));
    let (read, v) = d_authentication::body(u, AuthenticationSubtype::Demand);
    assert(v == s.at(s.pos + 167));
    assert(read == Ok::<_, PduParseErr>(known));
}

/// What the message holds at the cursor.
spec fn d_response_at(s: BitState, known: DAuthentication) -> bool {
    let p = s.pos;
    &&& s.pos + 38 <= s.bits.len()
    &&& known.sub_type is Response
    &&& known.res2 matches Some(res2)
    &&& res2 < 0x1_0000_0000
    &&& bits::holds(s.bits, p + 6, 32, res2 as nat)
    &&& known.rand1 is None
    &&& known.rs is None
    &&& known.mutual_authentication_flag is None
    &&& known.reject_reason is None
    &&& known.result is None
    &&& known.address_extension is None
    &&& known.proprietary is None
}

/// D-AUTHENTICATION RESPONSE as it is received: behind the first six bits RES2 in 32.
/// It goes on with the optional part. Where bits are missing, the error names the field.
pub proof fn law_d_response_is_received_bit_for_bit(known: DAuthentication)
    ensures
        forall|b: &mut BitBuffer, r: Result<DAuthentication, PduParseErr>|
            b@.well_formed() && starts_with(b@, 1, 1) && #[trigger] call_ensures(
                DAuthentication::from_bitbuf,
                (b,),
                r,
            ) ==> {
                let (s, t) = (b@, final(b)@);
                let (p, left) = (s.pos, s.bits.len() - s.pos);
                &&& {
                    &&& s.pos + 38 <= s.bits.len()
                    &&& known.sub_type is Response
                    &&& known.res2 matches Some(res2)
                    &&& res2 < 0x1_0000_0000
                    &&& bits::holds(s.bits, p + 6, 32, res2 as nat)
                    &&& known.rand1 is None
                    &&& known.rs is None
                    &&& known.mutual_authentication_flag is None
                    &&& known.reject_reason is None
                    &&& known.result is None
                    &&& known.address_extension is None
                    &&& known.proprietary is None
                } ==> (r, t) == d_authentication::tail(
                    s.at(p + 38),
                    known,
                )
                &&& left < 38 ==> ran_out(s, t, r, "res2", p + 6)
            },
{
    assert forall|b: &mut BitBuffer, r: Result<DAuthentication, PduParseErr>|
        b@.well_formed() && starts_with(b@, 1, 1) && #[trigger] call_ensures(
            DAuthentication::from_bitbuf,
            (b,),
            r,
        ) implies {
        let (s, t) = (b@, final(b)@);
        let (p, left) = (s.pos, s.bits.len() - s.pos);
        &&& d_response_at(s, known) ==> (r, t) == d_authentication::tail(s.at(p + 38), known)
        &&& left < 38 ==> ran_out(s, t, r, "res2", p + 6)
    } by {
        lemma_d_response_errors(b@);
        if d_response_at(b@, known) {
            lemma_d_response(b@, known);
        }
    }
}

proof fn lemma_d_response_errors(s: BitState)
    requires
        s.well_formed(),
        starts_with(s, 1, 1),
    ensures
        ({
            let (r, t) = d_authentication::parsed(s);
            let (p, left) = (s.pos, s.bits.len() - s.pos);
            &&& left < 38 ==> ran_out(s, t, r, "res2", p + 6)
        }),
{
    lemma_d_parsed(s, AuthenticationSubtype::Response);
}

proof fn lemma_d_response(s: BitState, known: DAuthentication)
    requires
        s.well_formed(),
        starts_with(s, 1, 1),
        d_response_at(s, known),
    ensures
        d_authentication::parsed(s) == d_authentication::tail(s.at(s.pos + 38), known),
{
    lemma2_to64();
    lemma_d_parsed(s, AuthenticationSubtype::Response);
    let u = s.skip(6);
    let res2 = known.res2.unwrap();
    lemma_is_number(s, 6, 32, res2 as nat);
    assert(s.skip(6).value(32) as u64 == res2);
    let (read, v) = d_authentication::body(u, AuthenticationSubtype::Response);
    assert(v == s.at(s.pos + 38));
    assert(read == Ok::<_, PduParseErr>(known));
}

/// What the message holds at the cursor.
spec fn d_result_at(s: BitState, known: DAuthentication) -> bool {
    let p = s.pos;
    &&& s.pos + 7 <= s.bits.len()
    &&& known.sub_type is Result
    &&& known.result == Some(s.bits[p + 6])
    &&& known.rand1 is None
    &&& known.rs is None
    &&& known.mutual_authentication_flag is None
    &&& known.reject_reason is None
    &&& known.res2 is None
    &&& known.address_extension is None
    &&& known.proprietary is None
}

/// D-AUTHENTICATION RESULT as it is received: behind the first six bits the result in one.
/// It goes on with the optional part. Where bits are missing, the error names the field.
pub proof fn law_d_result_is_received_bit_for_bit(known: DAuthentication)
    ensures
        forall|b: &mut BitBuffer, r: Result<DAuthentication, PduParseErr>|
            b@.well_formed() && starts_with(b@, 1, 2) && #[trigger] call_ensures(
                DAuthentication::from_bitbuf,
                (b,),
                r,
            ) ==> {
                let (s, t) = (b@, final(b)@);
                let (p, left) = (s.pos, s.bits.len() - s.pos);
                &&& {
                    &&& s.pos + 7 <= s.bits.len()
                    &&& known.sub_type is Result
                    &&& known.result == Some(s.bits[p + 6])
                    &&& known.rand1 is None
                    &&& known.rs is None
                    &&& known.mutual_authentication_flag is None
                    &&& known.reject_reason is None
                    &&& known.res2 is None
                    &&& known.address_extension is None
                    &&& known.proprietary is None
                } ==> (r, t) == d_authentication::tail(
                    s.at(p + 7),
                    known,
                )
                &&& left < 7 ==> ran_out(s, t, r, "result", p + 6)
            },
{
    assert forall|b: &mut BitBuffer, r: Result<DAuthentication, PduParseErr>|
        b@.well_formed() && starts_with(b@, 1, 2) && #[trigger] call_ensures(
            DAuthentication::from_bitbuf,
            (b,),
            r,
        ) implies {
        let (s, t) = (b@, final(b)@);
        let (p, left) = (s.pos, s.bits.len() - s.pos);
        &&& d_result_at(s, known) ==> (r, t) == d_authentication::tail(s.at(p + 7), known)
        &&& left < 7 ==> ran_out(s, t, r, "result", p + 6)
    } by {
        lemma_d_result_errors(b@);
        if d_result_at(b@, known) {
            lemma_d_result(b@, known);
        }
    }
}

proof fn lemma_d_result_errors(s: BitState)
    requires
        s.well_formed(),
        starts_with(s, 1, 2),
    ensures
        ({
            let (r, t) = d_authentication::parsed(s);
            let (p, left) = (s.pos, s.bits.len() - s.pos);
            &&& left < 7 ==> ran_out(s, t, r, "result", p + 6)
        }),
{
    lemma_d_parsed(s, AuthenticationSubtype::Result);
}

proof fn lemma_d_result(s: BitState, known: DAuthentication)
    requires
        s.well_formed(),
        starts_with(s, 1, 2),
        d_result_at(s, known),
    ensures
        d_authentication::parsed(s) == d_authentication::tail(s.at(s.pos + 7), known),
{
    lemma2_to64();
    lemma_d_parsed(s, AuthenticationSubtype::Result);
    let u = s.skip(6);
    let (read, v) = d_authentication::body(u, AuthenticationSubtype::Result);
    assert(v == s.at(s.pos + 7));
    assert(read == Ok::<_, PduParseErr>(known));
}

/// What the message holds at the cursor.
spec fn d_reject_at(s: BitState, known: DAuthentication) -> bool {
    let p = s.pos;
    &&& s.pos + 9 <= s.bits.len()
    &&& known.sub_type is Reject
    &&& known.reject_reason matches Some(reason)
    &&& reason < 8
    &&& bits::holds(s.bits, p + 6, 3, reason as nat)
    &&& known.rand1 is None
    &&& known.rs is None
    &&& known.mutual_authentication_flag is None
    &&& known.res2 is None
    &&& known.result is None
    &&& known.address_extension is None
    &&& known.proprietary is None
}

/// D-AUTHENTICATION REJECT as it is received: behind the first six bits the reject reason in 3.
/// It goes on with the optional part. Where bits are missing, the error names the field.
pub proof fn law_d_reject_is_received_bit_for_bit(known: DAuthentication)
    ensures
        forall|b: &mut BitBuffer, r: Result<DAuthentication, PduParseErr>|
            b@.well_formed() && starts_with(b@, 1, 3) && #[trigger] call_ensures(
                DAuthentication::from_bitbuf,
                (b,),
                r,
            ) ==> {
                let (s, t) = (b@, final(b)@);
                let (p, left) = (s.pos, s.bits.len() - s.pos);
                &&& {
                    &&& s.pos + 9 <= s.bits.len()
                    &&& known.sub_type is Reject
                    &&& known.reject_reason matches Some(reason)
                    &&& reason < 8
                    &&& bits::holds(s.bits, p + 6, 3, reason as nat)
                    &&& known.rand1 is None
                    &&& known.rs is None
                    &&& known.mutual_authentication_flag is None
                    &&& known.res2 is None
                    &&& known.result is None
                    &&& known.address_extension is None
                    &&& known.proprietary is None
                } ==> (r, t) == d_authentication::tail(
                    s.at(p + 9),
                    known,
                )
                &&& left < 9 ==> ran_out(s, t, r, "reject_reason", p + 6)
            },
{
    assert forall|b: &mut BitBuffer, r: Result<DAuthentication, PduParseErr>|
        b@.well_formed() && starts_with(b@, 1, 3) && #[trigger] call_ensures(
            DAuthentication::from_bitbuf,
            (b,),
            r,
        ) implies {
        let (s, t) = (b@, final(b)@);
        let (p, left) = (s.pos, s.bits.len() - s.pos);
        &&& d_reject_at(s, known) ==> (r, t) == d_authentication::tail(s.at(p + 9), known)
        &&& left < 9 ==> ran_out(s, t, r, "reject_reason", p + 6)
    } by {
        lemma_d_reject_errors(b@);
        if d_reject_at(b@, known) {
            lemma_d_reject(b@, known);
        }
    }
}

proof fn lemma_d_reject_errors(s: BitState)
    requires
        s.well_formed(),
        starts_with(s, 1, 3),
    ensures
        ({
            let (r, t) = d_authentication::parsed(s);
            let (p, left) = (s.pos, s.bits.len() - s.pos);
            &&& left < 9 ==> ran_out(s, t, r, "reject_reason", p + 6)
        }),
{
    lemma_d_parsed(s, AuthenticationSubtype::Reject);
}

proof fn lemma_d_reject(s: BitState, known: DAuthentication)
    requires
        s.well_formed(),
        starts_with(s, 1, 3),
        d_reject_at(s, known),
    ensures
        d_authentication::parsed(s) == d_authentication::tail(s.at(s.pos + 9), known),
{
    lemma2_to64();
    lemma_d_parsed(s, AuthenticationSubtype::Reject);
    let u = s.skip(6);
    let reason = known.reject_reason.unwrap();
    lemma_is_number(s, 6, 3, reason as nat);
    assert(s.skip(6).value(3) as u64 as u8 == reason);
    let (read, v) = d_authentication::body(u, AuthenticationSubtype::Reject);
    assert(v == s.at(s.pos + 9));
    assert(read == Ok::<_, PduParseErr>(known));
}

/// What the message holds at the cursor.
spec fn u_demand_at(s: BitState, known: UAuthentication) -> bool {
    let p = s.pos;
    &&& s.pos + 86 <= s.bits.len()
    &&& known.sub_type is Demand
    &&& known.rand2 matches Some(rand2)
    &&& rand2 < 0x1_0000_0000_0000_0000_0000
    &&& bits::holds(s.bits, p + 6, 80, rand2 as nat)
    &&& known.reject_reason is None
    &&& known.res1 is None
    &&& known.result is None
    &&& known.mutual_authentication_flag is None
    &&& known.proprietary is None
}

/// U-AUTHENTICATION DEMAND as it is received: behind the first six bits RAND2 in 80.
/// It goes on with the optional part. Where bits are missing, the error names the field.
pub proof fn law_u_demand_is_received_bit_for_bit(known: UAuthentication)
    ensures
        forall|b: &mut BitBuffer, r: Result<UAuthentication, PduParseErr>|
            b@.well_formed() && starts_with(b@, 0, 0) && #[trigger] call_ensures(
                UAuthentication::from_bitbuf,
                (b,),
                r,
            ) ==> {
                let (s, t) = (b@, final(b)@);
                let (p, left) = (s.pos, s.bits.len() - s.pos);
                &&& {
                    &&& s.pos + 86 <= s.bits.len()
                    &&& known.sub_type is Demand
                    &&& known.rand2 matches Some(rand2)
                    &&& rand2 < 0x1_0000_0000_0000_0000_0000
                    &&& bits::holds(s.bits, p + 6, 80, rand2 as nat)
                    &&& known.reject_reason is None
                    &&& known.res1 is None
                    &&& known.result is None
                    &&& known.mutual_authentication_flag is None
                    &&& known.proprietary is None
                } ==> (r, t) == u_authentication::tail(
                    s.at(p + 86),
                    known,
                )
                &&& left < 22 ==> ran_out(s, t, r, "rand2", p + 6)
                &&& 22 <= left < 86 ==> ran_out(s, t, r, "rand2", p + 22)
            },
{
    assert forall|b: &mut BitBuffer, r: Result<UAuthentication, PduParseErr>|
        b@.well_formed() && starts_with(b@, 0, 0) && #[trigger] call_ensures(
            UAuthentication::from_bitbuf,
            (b,),
            r,
        ) implies {
        let (s, t) = (b@, final(b)@);
        let (p, left) = (s.pos, s.bits.len() - s.pos);
        &&& u_demand_at(s, known) ==> (r, t) == u_authentication::tail(s.at(p + 86), known)
        &&& left < 22 ==> ran_out(s, t, r, "rand2", p + 6)
        &&& 22 <= left < 86 ==> ran_out(s, t, r, "rand2", p + 22)
    } by {
        lemma_u_demand_errors(b@);
        if u_demand_at(b@, known) {
            lemma_u_demand(b@, known);
        }
    }
}

proof fn lemma_u_demand_errors(s: BitState)
    requires
        s.well_formed(),
        starts_with(s, 0, 0),
    ensures
        ({
            let (r, t) = u_authentication::parsed(s);
            let (p, left) = (s.pos, s.bits.len() - s.pos);
            &&& left < 22 ==> ran_out(s, t, r, "rand2", p + 6)
            &&& 22 <= left < 86 ==> ran_out(s, t, r, "rand2", p + 22)
        }),
{
    lemma_u_parsed(s, AuthenticationSubtype::Demand);
}

proof fn lemma_u_demand(s: BitState, known: UAuthentication)
    requires
        s.well_formed(),
        starts_with(s, 0, 0),
        u_demand_at(s, known),
    ensures
        u_authentication::parsed(s) == u_authentication::tail(s.at(s.pos + 86), known),
{
    lemma2_to64();
    lemma_u_parsed(s, AuthenticationSubtype::Demand);
    let u = s.skip(6);
    let rand2 = known.rand2.unwrap();
    lemma_is_number_80(s, 6, rand2 as nat);
    assert(s.skip(6).value(80) as u128 == rand2);
    let (read, v) = u_authentication::body(u, AuthenticationSubtype::Demand);
    assert(v == s.at(s.pos + 86));
    assert(read == Ok::<_, PduParseErr>(known));
}

/// What the message holds at the cursor.
spec fn u_reject_at(s: BitState, known: UAuthentication) -> bool {
    let p = s.pos;
    &&& s.pos + 9 <= s.bits.len()
    &&& known.sub_type is Reject
    &&& known.reject_reason matches Some(reason)
    &&& reason < 8
    &&& bits::holds(s.bits, p + 6, 3, reason as nat)
    &&& known.rand2 is None
    &&& known.res1 is None
    &&& known.result is None
    &&& known.mutual_authentication_flag is None
    &&& known.proprietary is None
}

/// U-AUTHENTICATION REJECT as it is received: behind the first six bits the reject reason in 3.
/// It goes on with the optional part. Where bits are missing, the error names the field.
pub proof fn law_u_reject_is_received_bit_for_bit(known: UAuthentication)
    ensures
        forall|b: &mut BitBuffer, r: Result<UAuthentication, PduParseErr>|
            b@.well_formed() && starts_with(b@, 0, 3) && #[trigger] call_ensures(
                UAuthentication::from_bitbuf,
                (b,),
                r,
            ) ==> {
                let (s, t) = (b@, final(b)@);
                let (p, left) = (s.pos, s.bits.len() - s.pos);
                &&& {
                    &&& s.pos + 9 <= s.bits.len()
                    &&& known.sub_type is Reject
                    &&& known.reject_reason matches Some(reason)
                    &&& reason < 8
                    &&& bits::holds(s.bits, p + 6, 3, reason as nat)
                    &&& known.rand2 is None
                    &&& known.res1 is None
                    &&& known.result is None
                    &&& known.mutual_authentication_flag is None
                    &&& known.proprietary is None
                } ==> (r, t) == u_authentication::tail(
                    s.at(p + 9),
                    known,
                )
                &&& left < 9 ==> ran_out(s, t, r, "reject_reason", p + 6)
            },
{
    assert forall|b: &mut BitBuffer, r: Result<UAuthentication, PduParseErr>|
        b@.well_formed() && starts_with(b@, 0, 3) && #[trigger] call_ensures(
            UAuthentication::from_bitbuf,
            (b,),
            r,
        ) implies {
        let (s, t) = (b@, final(b)@);
        let (p, left) = (s.pos, s.bits.len() - s.pos);
        &&& u_reject_at(s, known) ==> (r, t) == u_authentication::tail(s.at(p + 9), known)
        &&& left < 9 ==> ran_out(s, t, r, "reject_reason", p + 6)
    } by {
        lemma_u_reject_errors(b@);
        if u_reject_at(b@, known) {
            lemma_u_reject(b@, known);
        }
    }
}

proof fn lemma_u_reject_errors(s: BitState)
    requires
        s.well_formed(),
        starts_with(s, 0, 3),
    ensures
        ({
            let (r, t) = u_authentication::parsed(s);
            let (p, left) = (s.pos, s.bits.len() - s.pos);
            &&& left < 9 ==> ran_out(s, t, r, "reject_reason", p + 6)
        }),
{
    lemma_u_parsed(s, AuthenticationSubtype::Reject);
}

proof fn lemma_u_reject(s: BitState, known: UAuthentication)
    requires
        s.well_formed(),
        starts_with(s, 0, 3),
        u_reject_at(s, known),
    ensures
        u_authentication::parsed(s) == u_authentication::tail(s.at(s.pos + 9), known),
{
    lemma2_to64();
    lemma_u_parsed(s, AuthenticationSubtype::Reject);
    let u = s.skip(6);
    let reason = known.reject_reason.unwrap();
    lemma_is_number(s, 6, 3, reason as nat);
    assert(s.skip(6).value(3) as u64 as u8 == reason);
    let (read, v) = u_authentication::body(u, AuthenticationSubtype::Reject);
    assert(v == s.at(s.pos + 9));
    assert(read == Ok::<_, PduParseErr>(known));
}

/// What the message holds at the cursor.
spec fn u_response_at(s: BitState, known: UAuthentication) -> bool {
    let p = s.pos;
    &&& s.pos + 39 <= s.bits.len()
    &&& known.sub_type is Response
    &&& known.res1 matches Some(res1)
    &&& res1 < 0x1_0000_0000
    &&& bits::holds(s.bits, p + 6, 32, res1 as nat)
    &&& !s.bits[p + 38]
    &&& known.mutual_authentication_flag == Some(false)
    &&& known.rand2 is None
    &&& known.reject_reason is None
    &&& known.result is None
    &&& known.proprietary is None
}

/// U-AUTHENTICATION RESPONSE as it is received where its mutual authentication flag is not set:
/// behind the first six bits RES1 in 32, and the flag.
/// It goes on with the optional part. Where bits are missing, the error names the field.
pub proof fn law_u_response_is_received_bit_for_bit(known: UAuthentication)
    ensures
        forall|b: &mut BitBuffer, r: Result<UAuthentication, PduParseErr>|
            b@.well_formed() && starts_with(b@, 0, 1) && #[trigger] call_ensures(
                UAuthentication::from_bitbuf,
                (b,),
                r,
            ) ==> {
                let (s, t) = (b@, final(b)@);
                let (p, left) = (s.pos, s.bits.len() - s.pos);
                &&& {
                    &&& s.pos + 39 <= s.bits.len()
                    &&& known.sub_type is Response
                    &&& known.res1 matches Some(res1)
                    &&& res1 < 0x1_0000_0000
                    &&& bits::holds(s.bits, p + 6, 32, res1 as nat)
                    &&& !s.bits[p + 38]
                    &&& known.mutual_authentication_flag == Some(false)
                    &&& known.rand2 is None
                    &&& known.reject_reason is None
                    &&& known.result is None
                    &&& known.proprietary is None
                } ==> (r, t) == u_authentication::tail(
                    s.at(p + 39),
                    known,
                )
                &&& left < 38 ==> ran_out(s, t, r, "res1", p + 6)
                &&& left == 38 ==> ran_out(s, t, r, "mutual_authentication_flag", p + 38)
            },
{
    assert forall|b: &mut BitBuffer, r: Result<UAuthentication, PduParseErr>|
        b@.well_formed() && starts_with(b@, 0, 1) && #[trigger] call_ensures(
            UAuthentication::from_bitbuf,
            (b,),
            r,
        ) implies {
        let (s, t) = (b@, final(b)@);
        let (p, left) = (s.pos, s.bits.len() - s.pos);
        &&& u_response_at(s, known) ==> (r, t) == u_authentication::tail(s.at(p + 39), known)
        &&& left < 38 ==> ran_out(s, t, r, "res1", p + 6)
        &&& left == 38 ==> ran_out(s, t, r, "mutual_authentication_flag", p + 38)
    } by {
        lemma_u_response_errors(b@);
        if u_response_at(b@, known) {
            lemma_u_response(b@, known);
        }
    }
}

proof fn lemma_u_response_errors(s: BitState)
    requires
        s.well_formed(),
        starts_with(s, 0, 1),
    ensures
        ({
            let (r, t) = u_authentication::parsed(s);
            let (p, left) = (s.pos, s.bits.len() - s.pos);
            &&& left < 38 ==> ran_out(s, t, r, "res1", p + 6)
            &&& left == 38 ==> ran_out(s, t, r, "mutual_authentication_flag", p + 38)
        }),
{
    lemma_u_parsed(s, AuthenticationSubtype::Response);
}

proof fn lemma_u_response(s: BitState, known: UAuthentication)
    requires
        s.well_formed(),
        starts_with(s, 0, 1),
        u_response_at(s, known),
    ensures
        u_authentication::parsed(s) == u_authentication::tail(s.at(s.pos + 39), known),
{
    lemma2_to64();
    lemma_u_parsed(s, AuthenticationSubtype::Response);
    let u = s.skip(6);
    let res1 = known.res1.unwrap();
    lemma_is_number(s, 6, 32, res1 as nat);
    assert(s.skip(6).value(32) as u64 == res1);
    assert(u.skip(32) == s.skip(38));
    let (read, v) = u_authentication::body(u, AuthenticationSubtype::Response);
    assert(v == s.at(s.pos + 39));
    assert(read == Ok::<_, PduParseErr>(known));
}

/// What the message holds at the cursor.
spec fn u_mutual_response_at(s: BitState, known: UAuthentication) -> bool {
    let p = s.pos;
    &&& s.pos + 119 <= s.bits.len()
    &&& known.sub_type is Response
    &&& known.res1 matches Some(res1)
    &&& res1 < 0x1_0000_0000
    &&& bits::holds(s.bits, p + 6, 32, res1 as nat)
    &&& s.bits[p + 38]
    &&& known.mutual_authentication_flag == Some(true)
    &&& known.rand2 matches Some(rand2)
    &&& rand2 < 0x1_0000_0000_0000_0000_0000
    &&& bits::holds(s.bits, p + 39, 80, rand2 as nat)
    &&& known.reject_reason is None
    &&& known.result is None
    &&& known.proprietary is None
}

/// U-AUTHENTICATION RESPONSE as it is received where its mutual authentication flag is set:
/// behind the first six bits RES1 in 32, the flag, and RAND2 in 80.
/// It goes on with the optional part. Where bits are missing, the error names the field.
pub proof fn law_u_mutual_response_is_received_bit_for_bit(known: UAuthentication)
    ensures
        forall|b: &mut BitBuffer, r: Result<UAuthentication, PduParseErr>|
            b@.well_formed() && starts_with(b@, 0, 1) && #[trigger] call_ensures(
                UAuthentication::from_bitbuf,
                (b,),
                r,
            ) ==> {
                let (s, t) = (b@, final(b)@);
                let (p, left) = (s.pos, s.bits.len() - s.pos);
                &&& {
                    &&& s.pos + 119 <= s.bits.len()
                    &&& known.sub_type is Response
                    &&& known.res1 matches Some(res1)
                    &&& res1 < 0x1_0000_0000
                    &&& bits::holds(s.bits, p + 6, 32, res1 as nat)
                    &&& s.bits[p + 38]
                    &&& known.mutual_authentication_flag == Some(true)
                    &&& known.rand2 matches Some(rand2)
                    &&& rand2 < 0x1_0000_0000_0000_0000_0000
                    &&& bits::holds(s.bits, p + 39, 80, rand2 as nat)
                    &&& known.reject_reason is None
                    &&& known.result is None
                    &&& known.proprietary is None
                } ==> (r, t) == u_authentication::tail(
                    s.at(p + 119),
                    known,
                )
                &&& 39 <= left < 55 && s.bits[p + 38] ==> ran_out(s, t, r, "rand2", p + 39)
                &&& 55 <= left < 119 && s.bits[p + 38] ==> ran_out(s, t, r, "rand2", p + 55)
            },
{
    assert forall|b: &mut BitBuffer, r: Result<UAuthentication, PduParseErr>|
        b@.well_formed() && starts_with(b@, 0, 1) && #[trigger] call_ensures(
            UAuthentication::from_bitbuf,
            (b,),
            r,
        ) implies {
        let (s, t) = (b@, final(b)@);
        let (p, left) = (s.pos, s.bits.len() - s.pos);
        &&& u_mutual_response_at(s, known) ==> (r, t) == u_authentication::tail(s.at(p + 119), known)
        &&& 39 <= left < 55 && s.bits[p + 38] ==> ran_out(s, t, r, "rand2", p + 39)
        &&& 55 <= left < 119 && s.bits[p + 38] ==> ran_out(s, t, r, "rand2", p + 55)
    } by {
        lemma_u_mutual_response_errors(b@);
        if u_mutual_response_at(b@, known) {
            lemma_u_mutual_response(b@, known);
        }
    }
}

proof fn lemma_u_mutual_response_errors(s: BitState)
    requires
        s.well_formed(),
        starts_with(s, 0, 1),
    ensures
        ({
            let (r, t) = u_authentication::parsed(s);
            let (p, left) = (s.pos, s.bits.len() - s.pos);
            &&& 39 <= left < 55 && s.bits[p + 38] ==> ran_out(s, t, r, "rand2", p + 39)
            &&& 55 <= left < 119 && s.bits[p + 38] ==> ran_out(s, t, r, "rand2", p + 55)
        }),
{
    lemma_u_parsed(s, AuthenticationSubtype::Response);
}

proof fn lemma_u_mutual_response(s: BitState, known: UAuthentication)
    requires
        s.well_formed(),
        starts_with(s, 0, 1),
        u_mutual_response_at(s, known),
    ensures
        u_authentication::parsed(s) == u_authentication::tail(s.at(s.pos + 119), known),
{
    lemma2_to64();
    lemma_u_parsed(s, AuthenticationSubtype::Response);
    let u = s.skip(6);
    let res1 = known.res1.unwrap();
    lemma_is_number(s, 6, 32, res1 as nat);
    assert(s.skip(6).value(32) as u64 == res1);
    let rand2 = known.rand2.unwrap();
    lemma_is_number_80(s, 39, rand2 as nat);
    assert(s.skip(39).value(80) as u128 == rand2);
    assert(u.skip(32) == s.skip(38));
    assert(u.skip(32).skip(1) == s.skip(39));
    let (read, v) = u_authentication::body(u, AuthenticationSubtype::Response);
    assert(v == s.at(s.pos + 119));
    assert(read == Ok::<_, PduParseErr>(known));
}

/// What the message holds at the cursor.
spec fn u_result_at(s: BitState, known: UAuthentication) -> bool {
    let p = s.pos;
    &&& s.pos + 8 <= s.bits.len()
    &&& known.sub_type is Result
    &&& known.result == Some(s.bits[p + 6])
    &&& !s.bits[p + 7]
    &&& known.mutual_authentication_flag == Some(false)
    &&& known.rand2 is None
    &&& known.reject_reason is None
    &&& known.res1 is None
    &&& known.proprietary is None
}

/// U-AUTHENTICATION RESULT as it is received where its mutual authentication flag is not set:
/// behind the first six bits R2 in one, and the flag.
/// It goes on with the optional part. Where bits are missing, the error names the field.
pub proof fn law_u_result_is_received_bit_for_bit(known: UAuthentication)
    ensures
        forall|b: &mut BitBuffer, r: Result<UAuthentication, PduParseErr>|
            b@.well_formed() && starts_with(b@, 0, 2) && #[trigger] call_ensures(
                UAuthentication::from_bitbuf,
                (b,),
                r,
            ) ==> {
                let (s, t) = (b@, final(b)@);
                let (p, left) = (s.pos, s.bits.len() - s.pos);
                &&& {
                    &&& s.pos + 8 <= s.bits.len()
                    &&& known.sub_type is Result
                    &&& known.result == Some(s.bits[p + 6])
                    &&& !s.bits[p + 7]
                    &&& known.mutual_authentication_flag == Some(false)
                    &&& known.rand2 is None
                    &&& known.reject_reason is None
                    &&& known.res1 is None
                    &&& known.proprietary is None
                } ==> (r, t) == u_authentication::tail(
                    s.at(p + 8),
                    known,
                )
                &&& left < 7 ==> ran_out(s, t, r, "authentication_result", p + 6)
                &&& left == 7 ==> ran_out(s, t, r, "mutual_authentication_flag", p + 7)
            },
{
    assert forall|b: &mut BitBuffer, r: Result<UAuthentication, PduParseErr>|
        b@.well_formed() && starts_with(b@, 0, 2) && #[trigger] call_ensures(
            UAuthentication::from_bitbuf,
            (b,),
            r,
        ) implies {
        let (s, t) = (b@, final(b)@);
        let (p, left) = (s.pos, s.bits.len() - s.pos);
        &&& u_result_at(s, known) ==> (r, t) == u_authentication::tail(s.at(p + 8), known)
        &&& left < 7 ==> ran_out(s, t, r, "authentication_result", p + 6)
        &&& left == 7 ==> ran_out(s, t, r, "mutual_authentication_flag", p + 7)
    } by {
        lemma_u_result_errors(b@);
        if u_result_at(b@, known) {
            lemma_u_result(b@, known);
        }
    }
}

proof fn lemma_u_result_errors(s: BitState)
    requires
        s.well_formed(),
        starts_with(s, 0, 2),
    ensures
        ({
            let (r, t) = u_authentication::parsed(s);
            let (p, left) = (s.pos, s.bits.len() - s.pos);
            &&& left < 7 ==> ran_out(s, t, r, "authentication_result", p + 6)
            &&& left == 7 ==> ran_out(s, t, r, "mutual_authentication_flag", p + 7)
        }),
{
    lemma_u_parsed(s, AuthenticationSubtype::Result);
}

proof fn lemma_u_result(s: BitState, known: UAuthentication)
    requires
        s.well_formed(),
        starts_with(s, 0, 2),
        u_result_at(s, known),
    ensures
        u_authentication::parsed(s) == u_authentication::tail(s.at(s.pos + 8), known),
{
    lemma2_to64();
    lemma_u_parsed(s, AuthenticationSubtype::Result);
    let u = s.skip(6);
    assert(u.skip(1) == s.skip(7));
    let (read, v) = u_authentication::body(u, AuthenticationSubtype::Result);
    assert(v == s.at(s.pos + 8));
    assert(read == Ok::<_, PduParseErr>(known));
}

/// What the message holds at the cursor.
spec fn u_mutual_result_at(s: BitState, known: UAuthentication) -> bool {
    let p = s.pos;
    &&& s.pos + 40 <= s.bits.len()
    &&& known.sub_type is Result
    &&& known.result == Some(s.bits[p + 6])
    &&& s.bits[p + 7]
    &&& known.mutual_authentication_flag == Some(true)
    &&& known.res1 matches Some(res1)
    &&& res1 < 0x1_0000_0000
    &&& bits::holds(s.bits, p + 8, 32, res1 as nat)
    &&& known.rand2 is None
    &&& known.reject_reason is None
    &&& known.proprietary is None
}

/// U-AUTHENTICATION RESULT as it is received where its mutual authentication flag is set:
/// behind the first six bits R2 in one, the flag, and RES1 in 32.
/// It goes on with the optional part. Where bits are missing, the error names the field.
pub proof fn law_u_mutual_result_is_received_bit_for_bit(known: UAuthentication)
    ensures
        forall|b: &mut BitBuffer, r: Result<UAuthentication, PduParseErr>|
            b@.well_formed() && starts_with(b@, 0, 2) && #[trigger] call_ensures(
                UAuthentication::from_bitbuf,
                (b,),
                r,
            ) ==> {
                let (s, t) = (b@, final(b)@);
                let (p, left) = (s.pos, s.bits.len() - s.pos);
                &&& {
                    &&& s.pos + 40 <= s.bits.len()
                    &&& known.sub_type is Result
                    &&& known.result == Some(s.bits[p + 6])
                    &&& s.bits[p + 7]
                    &&& known.mutual_authentication_flag == Some(true)
                    &&& known.res1 matches Some(res1)
                    &&& res1 < 0x1_0000_0000
                    &&& bits::holds(s.bits, p + 8, 32, res1 as nat)
                    &&& known.rand2 is None
                    &&& known.reject_reason is None
                    &&& known.proprietary is None
                } ==> (r, t) == u_authentication::tail(
                    s.at(p + 40),
                    known,
                )
                &&& 8 <= left < 40 && s.bits[p + 7] ==> ran_out(s, t, r, "res1", p + 8)
            },
{
    assert forall|b: &mut BitBuffer, r: Result<UAuthentication, PduParseErr>|
        b@.well_formed() && starts_with(b@, 0, 2) && #[trigger] call_ensures(
            UAuthentication::from_bitbuf,
            (b,),
            r,
        ) implies {
        let (s, t) = (b@, final(b)@);
        let (p, left) = (s.pos, s.bits.len() - s.pos);
        &&& u_mutual_result_at(s, known) ==> (r, t) == u_authentication::tail(s.at(p + 40), known)
        &&& 8 <= left < 40 && s.bits[p + 7] ==> ran_out(s, t, r, "res1", p + 8)
    } by {
        lemma_u_mutual_result_errors(b@);
        if u_mutual_result_at(b@, known) {
            lemma_u_mutual_result(b@, known);
        }
    }
}

proof fn lemma_u_mutual_result_errors(s: BitState)
    requires
        s.well_formed(),
        starts_with(s, 0, 2),
    ensures
        ({
            let (r, t) = u_authentication::parsed(s);
            let (p, left) = (s.pos, s.bits.len() - s.pos);
            &&& 8 <= left < 40 && s.bits[p + 7] ==> ran_out(s, t, r, "res1", p + 8)
        }),
{
    lemma_u_parsed(s, AuthenticationSubtype::Result);
}

proof fn lemma_u_mutual_result(s: BitState, known: UAuthentication)
    requires
        s.well_formed(),
        starts_with(s, 0, 2),
        u_mutual_result_at(s, known),
    ensures
        u_authentication::parsed(s) == u_authentication::tail(s.at(s.pos + 40), known),
{
    lemma2_to64();
    lemma_u_parsed(s, AuthenticationSubtype::Result);
    let u = s.skip(6);
    let res1 = known.res1.unwrap();
    lemma_is_number(s, 8, 32, res1 as nat);
    assert(s.skip(8).value(32) as u64 == res1);
    assert(u.skip(1) == s.skip(7));
    assert(u.skip(1).skip(1) == s.skip(8));
    let (read, v) = u_authentication::body(u, AuthenticationSubtype::Result);
    assert(v == s.at(s.pos + 40));
    assert(read == Ok::<_, PduParseErr>(known));
}

/// The optional part of D-AUTHENTICATION as it is received, from its O-bit on: where that is set, a
/// P-bit, with the address extension in 24 bits where it is set too, and the end. It adds these to
/// what is known and changes nothing else. Where bits are missing, the error names the field.
pub proof fn law_d_optional_part_is_received(s: BitState, known: DAuthentication)
    requires
        s.well_formed(),
    ensures
        ({
            let (r, t) = d_authentication::tail(s, known);
            let (p, left) = (s.pos, s.bits.len() - s.pos);
            &&& left == 0 ==> ran_out(s, t, r, "obit", p)
            &&& left > 0 && !s.bits[p] ==> {
                &&& r matches Ok(pdu)
                &&& d_added(known, pdu, None, None)
                &&& bitbuffer::moved(s, t, p + 1)
            }
            &&& left == 1 && s.bits[p] ==> ran_out(s, t, r, "pbit", p + 1)
            &&& 2 <= left < 26 && s.bits[p] && s.bits[p + 1] ==> ran_out(
                s,
                t,
                r,
                "address_extension",
                p + 2,
            )
            &&& left >= 2 && s.bits[p] && !s.bits[p + 1] ==> match elements::proprietary_and_end(
                true,
                s.at(p + 2),
            ) {
                (Err(e), u) => r == Err::<DAuthentication, _>(e) && t == u,
                (Ok(field), u) => r matches Ok(pdu) && d_added(known, pdu, None, field) && t == u,
            }
            &&& left >= 26 && s.bits[p] && s.bits[p + 1] ==> match elements::proprietary_and_end(
                true,
                s.at(p + 26),
            ) {
                (Err(e), u) => r == Err::<DAuthentication, _>(e) && t == u,
                (Ok(field), u) => {
                    &&& r matches Ok(pdu)
                    &&& pdu.address_extension matches Some(v)
                    &&& v < 0x100_0000
                    &&& bits::holds(s.bits, p + 2, 24, v as nat)
                    &&& d_added(known, pdu, Some(v), field)
                    &&& t == u
                },
            }
        }),
{
    if s.bits.len() - s.pos >= 26 {
        lemma2_to64();
        lemma_field(s, 2, 24);
        assert(s.skip(1).skip(25) == s.at(s.pos + 26));
        assert(s.skip(1).skip(1) == s.skip(2));
    }
    if s.bits.len() - s.pos >= 2 {
        assert(s.skip(1).skip(1) == s.at(s.pos + 2));
    }
}

/// `pdu` is `known` with these optional elements.
pub open spec fn d_added(
    known: DAuthentication,
    pdu: DAuthentication,
    address_extension: Option<u64>,
    proprietary: Option<Type3FieldGeneric>,
) -> bool {
    &&& pdu.sub_type == known.sub_type
    &&& pdu.rand1 == known.rand1
    &&& pdu.rs == known.rs
    &&& pdu.mutual_authentication_flag == known.mutual_authentication_flag
    &&& pdu.reject_reason == known.reject_reason
    &&& pdu.res2 == known.res2
    &&& pdu.result == known.result
    &&& pdu.address_extension == address_extension
    &&& pdu.proprietary == proprietary
}

/// The optional part of U-AUTHENTICATION as it is received, from its O-bit on: where that is set,
/// the end. It adds the Proprietary element to what is known and changes nothing else.
pub proof fn law_u_optional_part_is_received(s: BitState, known: UAuthentication)
    requires
        s.well_formed(),
    ensures
        ({
            let (r, t) = u_authentication::tail(s, known);
            let (p, left) = (s.pos, s.bits.len() - s.pos);
            &&& left == 0 ==> ran_out(s, t, r, "obit", p)
            &&& left > 0 && !s.bits[p] ==> {
                &&& r matches Ok(pdu)
                &&& u_added(known, pdu, None)
                &&& bitbuffer::moved(s, t, p + 1)
            }
            &&& left >= 1 && s.bits[p] ==> match elements::proprietary_and_end(true, s.at(p + 1)) {
                (Err(e), u) => r == Err::<UAuthentication, _>(e) && t == u,
                (Ok(field), u) => r matches Ok(pdu) && u_added(known, pdu, field) && t == u,
            }
        }),
{
}

/// `pdu` is `known` with this Proprietary element.
pub open spec fn u_added(
    known: UAuthentication,
    pdu: UAuthentication,
    proprietary: Option<Type3FieldGeneric>,
) -> bool {
    &&& pdu.sub_type == known.sub_type
    &&& pdu.rand2 == known.rand2
    &&& pdu.reject_reason == known.reject_reason
    &&& pdu.res1 == known.res1
    &&& pdu.result == known.result
    &&& pdu.mutual_authentication_flag == known.mutual_authentication_flag
    &&& pdu.proprietary == proprietary
}

/// What can be sent of D-AUTHENTICATION: the reason, the response and the address extension fit
/// their fields where they are sent, and so does the Proprietary element. Of RAND1 and RS any number
/// will do.
pub proof fn law_what_can_be_sent_of_d_authentication(pdu: DAuthentication)
    ensures
        pdu.can_be_sent() <==> {
            &&& pdu.sub_type is Reject && pdu.reject_reason is Some ==> pdu.reject_reason.unwrap() < 8
            &&& pdu.sub_type is Response && pdu.res2 is Some ==> pdu.res2.unwrap() < 0x1_0000_0000
            &&& pdu.address_extension is Some ==> pdu.address_extension.unwrap() < 0x100_0000
            &&& pdu.proprietary is Some ==> pdu.proprietary.unwrap().can_be_sent()
        },
        forall|b: &mut BitBuffer|
            pdu.can_be_sent() && b@.has_room(pdu.bits().len() as int) ==> call_requires(
                DAuthentication::to_bitbuf,
                (&pdu, b),
            ),
        forall|b: &mut BitBuffer| call_requires(DAuthentication::from_bitbuf, (b,)),
{
}

/// What can be sent of U-AUTHENTICATION: the reason and the response fit their fields where they are
/// sent, and so does the Proprietary element. Of RAND2 any number will do.
pub proof fn law_what_can_be_sent_of_u_authentication(pdu: UAuthentication)
    ensures
        pdu.can_be_sent() <==> {
            &&& pdu.sub_type is Reject && pdu.reject_reason is Some ==> pdu.reject_reason.unwrap() < 8
            &&& pdu.sub_type is Response && pdu.res1 is Some ==> pdu.res1.unwrap() < 0x1_0000_0000
            &&& pdu.sub_type is Result && pdu.mutual_authentication_flag == Some(true)
                && pdu.res1 is Some ==> pdu.res1.unwrap() < 0x1_0000_0000
            &&& pdu.proprietary is Some ==> pdu.proprietary.unwrap().can_be_sent()
        },
        forall|b: &mut BitBuffer|
            pdu.can_be_sent() && b@.has_room(pdu.bits().len() as int) ==> call_requires(
                UAuthentication::to_bitbuf,
                (&pdu, b),
            ),
        forall|b: &mut BitBuffer| call_requires(UAuthentication::from_bitbuf, (b,)),
{
}

} // verus!
