use vstd::arithmetic::power2::*;
use vstd::prelude::*;

use super::authentication_subtype::{self, AuthenticationSubtype};
use super::elements;
use crate::bitbuffer;
use crate::bitbuffer::{BitBuffer, BitState};
use crate::bits;
use crate::pdu_parse_error::PduParseErr;
use crate::text;
use crate::typed_pdu_fields;
use crate::typed_pdu_fields::{delimiters, Type3FieldGeneric};

verus! {

/// U-AUTHENTICATION PDU (ETSI EN 300 392-7, Tables A.5 to A.8).
///
/// Layouts, verbatim from the standard:
///
/// - DEMAND (A.5):   PDU type(4) sub-type(2) RAND2(80) [proprietary T3]
/// - REJECT (A.6):   PDU type(4) sub-type(2) reject_reason(3) [proprietary T3]
/// - RESPONSE (A.7): PDU type(4) sub-type(2) RES1(32) mutual_flag(1)
///                   RAND2(80 — only if mutual_flag = 1) [proprietary T3]
/// - RESULT (A.8):   PDU type(4) sub-type(2) R2(1) mutual_flag(1)
///                   RES1(32 — only if mutual_flag = 1) [proprietary T3]
///
/// The mutual authentication flag is MANDATORY in RESPONSE and RESULT. Parsing a RESPONSE
/// without consuming it misreads everything after RES1.
#[derive(Debug)]
pub struct UAuthentication {
    /// Type1, 2 bits, which of the four authentication messages this is
    pub sub_type: AuthenticationSubtype,

    /// Type1, 80 bits, random challenge RAND2 (DEMAND; also RESPONSE when mutual_flag = 1)
    pub rand2: Option<u128>,
    /// Type1, 3 bits, authentication reject reason (REJECT only)
    pub reject_reason: Option<u8>,
    /// Type1, 32 bits, RES1 (RESPONSE; also RESULT when mutual_flag = 1)
    pub res1: Option<u64>,
    /// Type1, 1 bit, authentication result R2 (RESULT only). false = failed.
    pub result: Option<bool>,
    /// Type1, 1 bit, mutual authentication flag (RESPONSE and RESULT only)
    pub mutual_authentication_flag: Option<bool>,

    /// Type3, Proprietary
    pub proprietary: Option<Type3FieldGeneric>,
}

/// A message of which nothing but the sub-type is known.
pub open spec fn blank(sub_type: AuthenticationSubtype) -> UAuthentication {
    UAuthentication {
        sub_type,
        rand2: None,
        reject_reason: None,
        res1: None,
        result: None,
        mutual_authentication_flag: None,
        proprietary: None,
    }
}

/// The mandatory part of a message, behind its sub-type.
pub open spec fn body(s: BitState, sub_type: AuthenticationSubtype) -> (
    Result<UAuthentication, PduParseErr>,
    BitState,
) {
    match sub_type {
        AuthenticationSubtype::Demand => match elements::field_80(s, "rand2") {
            (Err(e), t) => (Err(e), t),
            (Ok(rand2), t) => (
                Ok(UAuthentication { rand2: Some(rand2), ..blank(sub_type) }),
                t,
            ),
        },
        AuthenticationSubtype::Reject => match s.read(3, "reject_reason") {
            (Err(e), t) => (Err(e), t),
            (Ok(reason), t) => (
                Ok(UAuthentication { reject_reason: Some(reason as u8), ..blank(sub_type) }),
                t,
            ),
        },
        AuthenticationSubtype::Response => match s.read(32, "res1") {
            (Err(e), t) => (Err(e), t),
            (Ok(res1), t) => {
                let known = UAuthentication { res1: Some(res1), ..blank(sub_type) };
                match delimiters::flag(t, "mutual_authentication_flag") {
                    (Err(e), u) => (Err(e), u),
                    (Ok(false), u) => (
                        Ok(UAuthentication { mutual_authentication_flag: Some(false), ..known }),
                        u,
                    ),
                    (Ok(true), u) => match elements::field_80(u, "rand2") {
                        (Err(e), v) => (Err(e), v),
                        (Ok(rand2), v) => (
                            Ok(
                                UAuthentication {
                                    mutual_authentication_flag: Some(true),
                                    rand2: Some(rand2),
                                    ..known
                                },
                            ),
                            v,
                        ),
                    },
                }
            },
        },
        AuthenticationSubtype::Result => match delimiters::flag(s, "authentication_result") {
            (Err(e), t) => (Err(e), t),
            (Ok(result), t) => {
                let known = UAuthentication { result: Some(result), ..blank(sub_type) };
                match delimiters::flag(t, "mutual_authentication_flag") {
                    (Err(e), u) => (Err(e), u),
                    (Ok(false), u) => (
                        Ok(UAuthentication { mutual_authentication_flag: Some(false), ..known }),
                        u,
                    ),
                    (Ok(true), u) => match u.read(32, "res1") {
                        (Err(e), v) => (Err(e), v),
                        (Ok(res1), v) => (
                            Ok(
                                UAuthentication {
                                    mutual_authentication_flag: Some(true),
                                    res1: Some(res1),
                                    ..known
                                },
                            ),
                            v,
                        ),
                    },
                }
            },
        },
    }
}

/// The optional part of a message, whose mandatory part is `known`.
pub open spec fn tail(s: BitState, known: UAuthentication) -> (
    Result<UAuthentication, PduParseErr>,
    BitState,
) {
    match delimiters::flag(s, "obit") {
        (Err(e), t) => (Err(e), t),
        (Ok(obit), t) => match elements::proprietary_and_end(obit, t) {
            (Err(e), u) => (Err(e), u),
            (Ok(proprietary), u) => (Ok(UAuthentication { proprietary, ..known }), u),
        },
    }
}

/// A whole message.
pub open spec fn parsed(s: BitState) -> (Result<UAuthentication, PduParseErr>, BitState) {
    match s.read(4, "pdu_type") {
        (Err(e), t) => (Err(e), t),
        (Ok(pdu_type), t) => if pdu_type != elements::U_AUTHENTICATION {
            let e = PduParseErr::InvalidPduType {
                expected: elements::U_AUTHENTICATION,
                found: pdu_type,
            };
            (Err(e), t)
        } else {
            match t.read(2, "authentication_sub_type") {
                (Err(e), u) => (Err(e), u),
                (Ok(code), u) => match body(u, authentication_subtype::subtype_of(code).unwrap()) {
                    (Err(e), v) => (Err(e), v),
                    (Ok(known), v) => tail(v, known),
                },
            }
        },
    }
}

impl UAuthentication {
    /// The mandatory part behind the sub-type as it is sent. Where a value that belongs there is
    /// missing, zeros are sent.
    pub open spec fn body_bits(self) -> Seq<bool> {
        let rand2 = bits::value_bits(elements::long_or_zero(self.rand2) as nat, 80);
        let res1 = bits::value_bits(elements::or_zero(self.res1), 32);
        let mutual = self.mutual_authentication_flag == Some(true);
        match self.sub_type {
            AuthenticationSubtype::Demand => rand2,
            AuthenticationSubtype::Reject => bits::value_bits(
                elements::reason_or_zero(self.reject_reason) as nat,
                3,
            ),
            AuthenticationSubtype::Response => res1 + seq![mutual] + if mutual {
                rand2
            } else {
                Seq::empty()
            },
            AuthenticationSubtype::Result => seq![self.result == Some(true)] + seq![mutual]
                + if mutual {
                res1
            } else {
                Seq::empty()
            },
        }
    }

    /// The optional part as it is sent.
    pub open spec fn tail_bits(self) -> Seq<bool> {
        if self.proprietary is None {
            seq![false]
        } else {
            seq![true] + elements::proprietary_and_end_bits(self.proprietary)
        }
    }

    /// The message as it is sent.
    pub open spec fn bits(self) -> Seq<bool> {
        bits::value_bits(elements::U_AUTHENTICATION as nat, 4) + bits::value_bits(
            self.sub_type.code() as nat,
            2,
        ) + self.body_bits() + self.tail_bits()
    }

    /// What is sent fits its fields. (Of RAND2 the low 80 bits are sent.)
    pub open spec fn can_be_sent(self) -> bool {
        &&& self.sub_type is Reject ==> (self.reject_reason matches Some(v) ==> v < 8)
        &&& self.sub_type is Response || (self.sub_type is Result
            && self.mutual_authentication_flag == Some(true)) ==> (self.res1 matches Some(v) ==> v
            < 0x1_0000_0000)
        &&& self.proprietary matches Some(f) ==> f.can_be_sent()
    }

    /// The message as it comes out of the bits that it was sent as: what its sub-type does not
    /// carry is missing, and what was missing and carried is zero.
    pub open spec fn received(self) -> UAuthentication {
        let rand2 = Some(elements::low_80(elements::long_or_zero(self.rand2)));
        let res1 = Some(elements::or_zero(self.res1) as u64);
        let mutual = self.mutual_authentication_flag == Some(true);
        let known = UAuthentication {
            proprietary: elements::received(self.proprietary),
            ..blank(self.sub_type)
        };
        match self.sub_type {
            AuthenticationSubtype::Demand => UAuthentication { rand2, ..known },
            AuthenticationSubtype::Reject => UAuthentication {
                reject_reason: Some(elements::reason_or_zero(self.reject_reason)),
                ..known
            },
            AuthenticationSubtype::Response => UAuthentication {
                res1,
                mutual_authentication_flag: Some(mutual),
                rand2: if mutual {
                    rand2
                } else {
                    None
                },
                ..known
            },
            AuthenticationSubtype::Result => UAuthentication {
                result: Some(self.result == Some(true)),
                mutual_authentication_flag: Some(mutual),
                res1: if mutual {
                    res1
                } else {
                    None
                },
                ..known
            },
        }
    }

    /// The message holds exactly what its sub-type carries.
    pub open spec fn is_complete(self) -> bool {
        let mutual = self.mutual_authentication_flag == Some(true);
        &&& self.rand2 matches Some(v) ==> v < 0x1_0000_0000_0000_0000_0000
        &&& self.rand2 is Some <==> self.sub_type is Demand || (self.sub_type is Response && mutual)
        &&& self.reject_reason is Some <==> self.sub_type is Reject
        &&& self.res1 is Some <==> self.sub_type is Response || (self.sub_type is Result && mutual)
        &&& self.result is Some <==> self.sub_type is Result
        &&& self.mutual_authentication_flag is Some <==> self.sub_type is Response
            || self.sub_type is Result
        &&& self.proprietary == elements::received(self.proprietary)
    }

    /// Parse from BitBuffer
    pub fn from_bitbuf(buffer: &mut BitBuffer) -> (pdu: Result<Self, PduParseErr>)
        ensures
            (pdu, final(buffer)@) == parsed(old(buffer)@),
    {
        let pdu_type: u64 = match buffer.read_field(4, "pdu_type") {
            Err(e) => return Err(e),
            Ok(x) => x,
        };
        if pdu_type != elements::U_AUTHENTICATION {
            return Err(
                PduParseErr::InvalidPduType {
                    expected: elements::U_AUTHENTICATION,
                    found: pdu_type,
                },
            );
        }
        proof {
            lemma2_to64();
        }
        let sub_type = match buffer.read_field(2, "authentication_sub_type") {
            Err(e) => return Err(e),
            Ok(raw) => match AuthenticationSubtype::try_from(raw) {
                Err(_) => {
                    return Err(
                        PduParseErr::BufferEnded { field: Some("authentication_sub_type") },
                    );
                },
                Ok(sub_type) => sub_type,
            },
        };

        let mut s = UAuthentication {
            sub_type,
            rand2: None,
            reject_reason: None,
            res1: None,
            result: None,
            mutual_authentication_flag: None,
            proprietary: None,
        };
        match sub_type {
            AuthenticationSubtype::Demand => {
                match elements::read_field_80(buffer, "rand2") {
                    Err(e) => return Err(e),
                    Ok(rand2) => {
                        s.rand2 = Some(rand2);
                    },
                }
            },
            AuthenticationSubtype::Reject => {
                match buffer.read_field(3, "reject_reason") {
                    Err(e) => return Err(e),
                    Ok(reason) => {
                        s.reject_reason = Some(reason as u8);
                    },
                }
            },
            AuthenticationSubtype::Response => {
                match buffer.read_field(32, "res1") {
                    Err(e) => return Err(e),
                    Ok(res1) => {
                        s.res1 = Some(res1);
                    },
                }
                let mutual: bool = match delimiters::read_flag(
                    buffer,
                    "mutual_authentication_flag",
                ) {
                    Err(e) => return Err(e),
                    Ok(mutual) => mutual,
                };
                s.mutual_authentication_flag = Some(mutual);
                if mutual {
                    match elements::read_field_80(buffer, "rand2") {
                        Err(e) => return Err(e),
                        Ok(rand2) => {
                            s.rand2 = Some(rand2);
                        },
                    }
                }
            },
            AuthenticationSubtype::Result => {
                match delimiters::read_flag(buffer, "authentication_result") {
                    Err(e) => return Err(e),
                    Ok(result) => {
                        s.result = Some(result);
                    },
                }
                let mutual: bool = match delimiters::read_flag(
                    buffer,
                    "mutual_authentication_flag",
                ) {
                    Err(e) => return Err(e),
                    Ok(mutual) => mutual,
                };
                s.mutual_authentication_flag = Some(mutual);
                if mutual {
                    match buffer.read_field(32, "res1") {
                        Err(e) => return Err(e),
                        Ok(res1) => {
                            s.res1 = Some(res1);
                        },
                    }
                }
            },
        }

        let obit: bool = match delimiters::read_obit(buffer) {
            Err(e) => return Err(e),
            Ok(obit) => obit,
        };
        match elements::parse_proprietary_and_end(obit, buffer) {
            Err(e) => Err(e),
            Ok(proprietary) => {
                s.proprietary = proprietary;
                Ok(s)
            },
        }
    }

    /// Write the mandatory part behind the sub-type.
    fn write_body(&self, buffer: &mut BitBuffer)
        requires
            self.can_be_sent(),
            old(buffer)@.has_room(self.body_bits().len() as int),
        ensures
            final(buffer)@ == old(buffer)@.write(self.body_bits()),
    {
        let ghost start = buffer@;
        let rand2: u128 = self.rand2.unwrap_or(0);
        let res1: u64 = self.res1.unwrap_or(0);
        let mutual: bool = self.mutual_authentication_flag.unwrap_or(false);
        let ghost rand2_bits = bits::value_bits(rand2 as nat, 80);
        let ghost res1_bits = bits::value_bits(res1 as nat, 32);
        proof {
            use_type_invariant(&*buffer);
            lemma2_to64();
            bits::lemma_value_bits_len(rand2 as nat, 80);
            bits::lemma_value_bits_len(res1 as nat, 32);
        }
        match self.sub_type {
            AuthenticationSubtype::Demand => {
                elements::write_field_80(buffer, rand2);
            },
            AuthenticationSubtype::Reject => {
                let reason: u8 = self.reject_reason.unwrap_or(0);
                proof {
                    bits::lemma_value_bits_len(reason as nat, 3);
                }
                buffer.write_bits(reason as u64, 3);
            },
            AuthenticationSubtype::Response => {
                let ghost rest = if mutual {
                    rand2_bits
                } else {
                    Seq::empty()
                };
                proof {
                    bitbuffer::lemma_room_left(start, res1_bits, 1 + rest.len());
                    bitbuffer::lemma_write_twice(start, res1_bits, seq![mutual]);
                    bitbuffer::lemma_write_twice(start, res1_bits + seq![mutual], rest);
                }
                buffer.write_bits(res1, 32);
                buffer.write_bit(mutual as u8);
                if mutual {
                    elements::write_field_80(buffer, rand2);
                } else {
                    assert(res1_bits + seq![mutual] + rest =~= res1_bits + seq![mutual]);
                }
            },
            AuthenticationSubtype::Result => {
                let result: bool = self.result.unwrap_or(false);
                let ghost rest = if mutual {
                    res1_bits
                } else {
                    Seq::empty()
                };
                proof {
                    bitbuffer::lemma_room_left(start, seq![result], 1 + rest.len());
                    bitbuffer::lemma_write_twice(start, seq![result], seq![mutual]);
                    bitbuffer::lemma_write_twice(start, seq![result] + seq![mutual], rest);
                }
                buffer.write_bit(result as u8);
                buffer.write_bit(mutual as u8);
                if mutual {
                    buffer.write_bits(res1, 32);
                } else {
                    assert(seq![result] + seq![mutual] + rest =~= seq![result] + seq![mutual]);
                }
            },
        }
    }

    /// Serialize this PDU into the given BitBuffer.
    pub fn to_bitbuf(&self, buffer: &mut BitBuffer) -> (written: Result<(), PduParseErr>)
        requires
            self.can_be_sent(),
            old(buffer)@.has_room(self.bits().len() as int),
        ensures
            written == Ok::<(), PduParseErr>(()),
            final(buffer)@ == old(buffer)@.write(self.bits()),
    {
        let ghost start = buffer@;
        let ghost pdu_type = bits::value_bits(elements::U_AUTHENTICATION as nat, 4);
        let ghost code = bits::value_bits(self.sub_type.code() as nat, 2);
        let ghost (body, tail) = (self.body_bits(), self.tail_bits());
        proof {
            use_type_invariant(&*buffer);
            lemma2_to64();
            bits::lemma_value_bits_len(elements::U_AUTHENTICATION as nat, 4);
            bits::lemma_value_bits_len(self.sub_type.code() as nat, 2);
            bitbuffer::lemma_room_left(start, pdu_type, 2 + body.len() + tail.len());
            bitbuffer::lemma_write_twice(start, pdu_type, code);
            bitbuffer::lemma_room_left(start, pdu_type + code, body.len() + tail.len());
            bitbuffer::lemma_write_twice(start, pdu_type + code, body);
            bitbuffer::lemma_room_left(start, pdu_type + code + body, tail.len());
            bitbuffer::lemma_write_twice(start, pdu_type + code + body, tail);
        }
        buffer.write_bits(elements::U_AUTHENTICATION, 4);
        buffer.write_bits(self.sub_type.into_raw(), 2);
        self.write_body(buffer);

        let ghost before_tail = buffer@;
        let obit: bool = self.proprietary.is_some();
        proof {
            let end = elements::proprietary_and_end_bits(self.proprietary);
            if obit {
                bitbuffer::lemma_room_left(before_tail, seq![true], end.len());
                bitbuffer::lemma_write_twice(before_tail, seq![true], end);
            }
        }
        delimiters::write_obit(buffer, obit as u8);
        if !obit {
            return Ok(());
        }
        elements::write_proprietary_and_end(buffer, &self.proprietary)
    }
}

impl UAuthentication {
    /// The message as a log shows it.
    pub open spec fn shown(self) -> Seq<char> {
        "UAuthentication { sub_type: "@
            + self.sub_type.name()
            + " rand2: "@
            + text::option_number(self.rand2)
            + " reject_reason: "@
            + text::option_number(elements::widened_u8(self.reject_reason))
            + " res1: "@
            + text::option_number(elements::widened(self.res1))
            + " result: "@
            + text::option_bool(self.result)
            + " mutual: "@
            + text::option_bool(self.mutual_authentication_flag)
            + " proprietary: "@
            + typed_pdu_fields::shown_element(self.proprietary)
            + " }"@
    }

    /// The message as a log shows it.
    pub fn to_string(&self) -> (text: String)
        ensures
            text@ == self.shown(),
    {
        let mut text = String::from_str("UAuthentication { sub_type: ");
        text.append(self.sub_type.to_string().as_str());
        text.append(" rand2: ");
        text::push_option_number(&mut text, self.rand2);
        text.append(" reject_reason: ");
        text::push_option_number(
            &mut text,
            match self.reject_reason {
                Some(v) => Some(v as u128),
                None => None,
            },
        );
        text.append(" res1: ");
        text::push_option_number(
            &mut text,
            match self.res1 {
                Some(v) => Some(v as u128),
                None => None,
            },
        );
        text.append(" result: ");
        text::push_option_bool(&mut text, self.result);
        text.append(" mutual: ");
        text::push_option_bool(&mut text, self.mutual_authentication_flag);
        text.append(" proprietary: ");
        typed_pdu_fields::push_shown_element(&mut text, &self.proprietary);
        text.append(" }");
        text
    }
}

/// The mandatory part of a message is read as it was written.
proof fn lemma_body_read_back(s: BitState, pdu: UAuthentication)
    requires
        s.well_formed(),
        pdu.can_be_sent(),
        s.next_is(pdu.body_bits()),
    ensures
        body(s, pdu.sub_type) == (
            Ok::<_, PduParseErr>(UAuthentication { proprietary: None, ..pdu.received() }),
            s.skip(pdu.body_bits().len() as int),
        ),
{
    lemma2_to64();
    let rand2 = elements::long_or_zero(pdu.rand2);
    let res1 = elements::or_zero(pdu.res1);
    let mutual = pdu.mutual_authentication_flag == Some(true);
    let rand2_bits = bits::value_bits(rand2 as nat, 80);
    let res1_bits = bits::value_bits(res1, 32);
    bits::lemma_value_bits_len(rand2 as nat, 80);
    bits::lemma_value_bits_len(res1, 32);
    match pdu.sub_type {
        AuthenticationSubtype::Demand => {
            elements::law_field_80_read_back(s, rand2, "rand2");
        },
        AuthenticationSubtype::Reject => {
            let reason = elements::reason_or_zero(pdu.reject_reason) as nat;
            bits::lemma_value_bits_len(reason, 3);
            bitbuffer::lemma_value_is_next(s, reason, 3);
        },
        AuthenticationSubtype::Response => {
            let rest = if mutual {
                rand2_bits
            } else {
                Seq::empty()
            };
            bitbuffer::lemma_next_is_split(s, res1_bits + seq![mutual], rest);
            bitbuffer::lemma_next_is_split(s, res1_bits, seq![mutual]);
            bitbuffer::lemma_value_is_next(s, res1, 32);
            bitbuffer::lemma_bit_is_next(s.skip(32), mutual);
            if mutual {
                elements::law_field_80_read_back(s.skip(33), rand2, "rand2");
            }
        },
        AuthenticationSubtype::Result => {
            let result = pdu.result == Some(true);
            let rest = if mutual {
                res1_bits
            } else {
                Seq::empty()
            };
            bitbuffer::lemma_next_is_split(s, seq![result] + seq![mutual], rest);
            bitbuffer::lemma_next_is_split(s, seq![result], seq![mutual]);
            bitbuffer::lemma_bit_is_next(s, result);
            bitbuffer::lemma_bit_is_next(s.skip(1), mutual);
            if mutual {
                bitbuffer::lemma_value_is_next(s.skip(2), res1, 32);
            }
        },
    }
}

/// A message that was sent is received: reading its bits gives it back, with what its sub-type
/// does not carry left out, and the cursor stands behind it.
pub proof fn law_u_authentication_read_back(s: BitState, pdu: UAuthentication)
    requires
        s.well_formed(),
        pdu.can_be_sent(),
        s.next_is(pdu.bits()),
    ensures
        parsed(s) == (Ok::<_, PduParseErr>(pdu.received()), s.skip(pdu.bits().len() as int)),
{
    lemma2_to64();
    let pdu_type = bits::value_bits(elements::U_AUTHENTICATION as nat, 4);
    let code = bits::value_bits(pdu.sub_type.code() as nat, 2);
    let (body, tail) = (pdu.body_bits(), pdu.tail_bits());
    bits::lemma_value_bits_len(elements::U_AUTHENTICATION as nat, 4);
    bits::lemma_value_bits_len(pdu.sub_type.code() as nat, 2);
    bitbuffer::lemma_next_is_split(s, pdu_type + code + body, tail);
    bitbuffer::lemma_next_is_split(s, pdu_type + code, body);
    bitbuffer::lemma_next_is_split(s, pdu_type, code);
    bitbuffer::lemma_value_is_next(s, elements::U_AUTHENTICATION as nat, 4);
    bitbuffer::lemma_value_is_next(s.skip(4), pdu.sub_type.code() as nat, 2);
    authentication_subtype::law_subtype_codes_are_exact(pdu.sub_type, 0);
    lemma_body_read_back(s.skip(6), pdu);
    let t = s.skip(6int + body.len());
    if pdu.proprietary is None {
        bitbuffer::lemma_bit_is_next(t, false);
    } else {
        let end = elements::proprietary_and_end_bits(pdu.proprietary);
        bitbuffer::lemma_next_is_split(t, seq![true], end);
        bitbuffer::lemma_bit_is_next(t, true);
        elements::law_end_read_back(t.skip(1), pdu.proprietary);
    }
}

/// A message that holds exactly what its sub-type carries comes out of the buffer that it was put
/// in as it was.
pub proof fn law_sent_is_received(s: BitState, pdu: UAuthentication)
    requires
        s.well_formed(),
        pdu.can_be_sent(),
        pdu.is_complete(),
        s.has_room(pdu.bits().len() as int),
    ensures
        parsed(s.write(pdu.bits()).at(s.pos)) == (
            Ok::<_, PduParseErr>(pdu),
            s.write(pdu.bits()),
        ),
{
    bitbuffer::lemma_room_left(s, pdu.bits(), 0);
    bitbuffer::lemma_written_is_next(s, pdu.bits());
    law_u_authentication_read_back(s.write(pdu.bits()).at(s.pos), pdu);
    let received = pdu.received();
    assert(received.rand2 == pdu.rand2);
    assert(received.res1 == pdu.res1);
    assert(received.result == pdu.result);
    assert(received.reject_reason == pdu.reject_reason);
    assert(received.mutual_authentication_flag == pdu.mutual_authentication_flag);
}

/// A message that was received and is sent on is sent as the same bits, and received unchanged.
pub proof fn law_received_is_stable(pdu: UAuthentication)
    requires
        pdu.can_be_sent(),
    ensures
        pdu.received().received() == pdu.received(),
        pdu.received().bits() == pdu.bits(),
        pdu.received().can_be_sent(),
{
    lemma2_to64_rest();
    elements::lemma_pow2_80();
    if let Some(v) = pdu.rand2 {
        bits::lemma_value_bits_low(v as nat, 80, 80);
    }
    if let Some(f) = pdu.proprietary {
        if f.len <= 64 {
            bits::lemma_value_bits_low(f.data as nat, f.len as nat, 64);
        }
        assert(elements::received(pdu.proprietary).unwrap().contents() == f.contents());
    }
    assert(pdu.received().body_bits() == pdu.body_bits());
    assert(pdu.received().tail_bits() == pdu.tail_bits());
}

/// The mandatory part that was read is the one that would be written.
proof fn lemma_body_written_back(s: BitState, sub_type: AuthenticationSubtype)
    requires
        s.well_formed(),
    ensures
        body(s, sub_type) matches (Ok(pdu), t) ==> {
            &&& pdu.sub_type == sub_type
            &&& pdu.proprietary is None
            &&& pdu.can_be_sent()
            &&& s.next_is(pdu.body_bits())
            &&& t == s.skip(pdu.body_bits().len() as int)
        },
{
    lemma2_to64();
    if let (Ok(pdu), t) = body(s, sub_type) {
        match sub_type {
            AuthenticationSubtype::Demand => {
                elements::lemma_field_80_written_back(s);
            },
            AuthenticationSubtype::Reject => {
                bits::lemma_bits_value_bound(s.bits.subrange(s.pos, s.pos + 3));
                bitbuffer::lemma_next_is_value(s, 3);
                bits::lemma_value_bits_len(s.value(3), 3);
            },
            AuthenticationSubtype::Response => {
                let mutual = s.bits[s.pos + 32];
                bits::lemma_bits_value_bound(s.bits.subrange(s.pos, s.pos + 32));
                bitbuffer::lemma_next_is_value(s, 32);
                bits::lemma_value_bits_len(s.value(32), 32);
                let res1_bits = bits::value_bits(s.value(32), 32);
                bitbuffer::lemma_bit_is_next(s.skip(32), mutual);
                bitbuffer::lemma_next_is_split(s, res1_bits, seq![mutual]);
                if mutual {
                    elements::lemma_field_80_written_back(s.skip(33));
                    bitbuffer::lemma_next_is_split(
                        s,
                        res1_bits + seq![mutual],
                        bits::value_bits(s.skip(33).value(80), 80),
                    );
                } else {
                    assert(res1_bits + seq![mutual] + Seq::<bool>::empty() =~= res1_bits
                        + seq![mutual]);
                }
            },
            AuthenticationSubtype::Result => {
                let (result, mutual) = (s.bits[s.pos], s.bits[s.pos + 1]);
                bitbuffer::lemma_bit_is_next(s, result);
                bitbuffer::lemma_bit_is_next(s.skip(1), mutual);
                bitbuffer::lemma_next_is_split(s, seq![result], seq![mutual]);
                if mutual {
                    let u = s.skip(2);
                    bits::lemma_bits_value_bound(u.bits.subrange(u.pos, u.pos + 32));
                    bitbuffer::lemma_next_is_value(u, 32);
                    bits::lemma_value_bits_len(u.value(32), 32);
                    bitbuffer::lemma_next_is_split(
                        s,
                        seq![result] + seq![mutual],
                        bits::value_bits(u.value(32), 32),
                    );
                } else {
                    assert(seq![result] + seq![mutual] + Seq::<bool>::empty() =~= seq![result]
                        + seq![mutual]);
                }
            },
        }
    }
}

/// The O-bit of the message `pdu` that starts at the cursor.
pub open spec fn obit_of(s: BitState, pdu: UAuthentication) -> bool {
    s.bits[s.pos + 6 + pdu.body_bits().len()]
}

/// A message that was received can be sent again, and is sent as the very bits that were read, if
/// its Proprietary element has no more than 128 bits, and it has one if its O-bit is set.
pub proof fn law_u_authentication_written_back(s: BitState)
    requires
        s.well_formed(),
    ensures
        parsed(s) matches (Ok(pdu), t) ==> (pdu.proprietary matches Some(f) ==> f.len <= 128) && (
        obit_of(s, pdu) ==> pdu.proprietary is Some) ==> {
            &&& pdu.can_be_sent()
            &&& s.next_is(pdu.bits())
            &&& t == s.skip(pdu.bits().len() as int)
        },
{
    if let (Ok(pdu), t) = parsed(s) {
        lemma2_to64();
        bits::lemma_bits_value_bound(s.bits.subrange(s.pos + 4, s.pos + 6));
        bitbuffer::lemma_next_is_value(s, 4);
        bitbuffer::lemma_next_is_value(s.skip(4), 2);
        bits::lemma_bits_value_bound(s.bits.subrange(s.pos, s.pos + 4));
        bits::lemma_value_bits_len(elements::U_AUTHENTICATION as nat, 4);
        bits::lemma_value_bits_len(pdu.sub_type.code() as nat, 2);
        let raw = s.skip(4).value(2) as u64;
        let sub_type = authentication_subtype::subtype_of(raw).unwrap();
        authentication_subtype::law_subtype_codes_are_exact(sub_type, raw);
        lemma_body_written_back(s.skip(6), sub_type);
        let (body_read, u) = body(s.skip(6), sub_type);
        let known = body_read.unwrap();
        assert(pdu.body_bits() == known.body_bits());
        let pdu_type = bits::value_bits(elements::U_AUTHENTICATION as nat, 4);
        let code = bits::value_bits(pdu.sub_type.code() as nat, 2);
        bitbuffer::lemma_next_is_split(s, pdu_type, code);
        bitbuffer::lemma_next_is_split(s, pdu_type + code, pdu.body_bits());
        let obit = u.bits[u.pos];
        bitbuffer::lemma_bit_is_next(u, obit);
        if obit {
            elements::law_end_written_back(u.skip(1));
            if (pdu.proprietary matches Some(f) ==> f.len <= 128) {
                let end = elements::proprietary_and_end_bits(pdu.proprietary);
                bitbuffer::lemma_next_is_split(u, seq![true], end);
                bitbuffer::lemma_next_is_split(
                    s,
                    pdu_type + code + pdu.body_bits(),
                    seq![true] + end,
                );
            }
        } else {
            bitbuffer::lemma_next_is_split(s, pdu_type + code + pdu.body_bits(), seq![false]);
        }
    }
}

/// A message is shown by its sub-type and its elements, in the order of the structure.
pub proof fn law_u_authentication_is_shown_by_its_elements(pdu: UAuthentication, t: String)
    requires
        call_ensures(UAuthentication::to_string, (&pdu,), t),
    ensures
        t@ == "UAuthentication { sub_type: "@ + pdu.sub_type.name() + " rand2: "@
            + text::option_number(pdu.rand2) + " reject_reason: "@ + text::option_number(
            match pdu.reject_reason {
                Some(v) => Some(v as u128),
                None => None,
            },
        ) + " res1: "@ + text::option_number(
            match pdu.res1 {
                Some(v) => Some(v as u128),
                None => None,
            },
        ) + " result: "@ + text::option_bool(pdu.result) + " mutual: "@ + text::option_bool(
            pdu.mutual_authentication_flag,
        ) + " proprietary: "@ + typed_pdu_fields::shown_element(pdu.proprietary) + " }"@,
{
}

} // verus!
