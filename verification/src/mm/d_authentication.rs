use vstd::arithmetic::power2::*;
use vstd::prelude::*;

use super::authentication_subtype::{self, AuthenticationSubtype};
use super::elements;
use crate::bitbuffer;
use crate::bitbuffer::{BitBuffer, BitState};
use crate::bits;
use crate::pdu_parse_error::PduParseErr;
use crate::text;
use crate::typed_pdu_fields;
use crate::typed_pdu_fields::laws;
use crate::typed_pdu_fields::{delimiters, typed, Type3FieldGeneric};

verus! {

/// Representation of the D-AUTHENTICATION PDU (ETSI EN 300 392-7, Annex A.1.1-A.1.4).
/// The infrastructure uses this single PDU type, discriminated by `sub_type`, to carry all
/// four authentication messages the SwMI can send: demand (challenge the MS with RAND1/RS),
/// reject, response (SwMI's answer RES2 to an MS-initiated mutual challenge), and result
/// (final pass/fail of the exchange).
/// Response expected: U-AUTHENTICATION (subtype-dependent) / -
/// Response to: U-AUTHENTICATION demand (for `Response`) / registration or explicit auth trigger (for `Demand`)
///
/// NOTE ON FIELD WIDTHS: RAND1/RAND2/RS are modelled as 80 bits and RES1/RES2 as 32 bits, matching
/// the widths used throughout published TETRA research. The exact
/// bit-for-bit layout (and the reject-reason / result flag widths) should be checked against the
/// Annex A.8 element tables in EN 300 392-7 before this is relied on against real hardware — this
/// PDU has not yet been validated on air.
#[derive(Debug)]
pub struct DAuthentication {
    /// Type1, 2 bits, which of the four authentication messages this is
    pub sub_type: AuthenticationSubtype,

    // --- Demand (sub_type == Demand) ---
    /// Type1, 80 bits, Random challenge RAND1 (present for Demand only)
    pub rand1: Option<u128>,
    /// Type1, 80 bits, Random seed RS (present for Demand only)
    pub rs: Option<u128>,
    /// Type1, 1 bit, request the MS to also challenge the SwMI (mutual authentication) (Demand only)
    pub mutual_authentication_flag: Option<bool>,

    // --- Reject (sub_type == Reject) ---
    /// Type1, 3 bits, reason the SwMI is rejecting the authentication exchange (Reject only)
    pub reject_reason: Option<u8>,

    // --- Response (sub_type == Response) ---
    /// Type1, 32 bits, SwMI's response RES2 to the MS's mutual challenge RAND2 (Response only)
    pub res2: Option<u64>,

    // --- Result (sub_type == Result) ---
    /// Type1, 1 bit, TRUE if the SwMI accepts the MS as authenticated (Result only)
    pub result: Option<bool>,

    // --- Trailing optional elements, common to all sub-types ---
    /// Type2, 24 bits, MNI of the MS
    pub address_extension: Option<u64>,
    /// Type3, Proprietary
    pub proprietary: Option<Type3FieldGeneric>,
}

/// A message of which nothing but the sub-type is known.
pub open spec fn blank(sub_type: AuthenticationSubtype) -> DAuthentication {
    DAuthentication {
        sub_type,
        rand1: None,
        rs: None,
        mutual_authentication_flag: None,
        reject_reason: None,
        res2: None,
        result: None,
        address_extension: None,
        proprietary: None,
    }
}

/// The mandatory part of a message, behind its sub-type.
pub open spec fn body(s: BitState, sub_type: AuthenticationSubtype) -> (
    Result<DAuthentication, PduParseErr>,
    BitState,
) {
    match sub_type {
        AuthenticationSubtype::Demand => match elements::field_80(s, "rand1") {
            (Err(e), t) => (Err(e), t),
            (Ok(rand1), t) => match elements::field_80(t, "rs") {
                (Err(e), u) => (Err(e), u),
                (Ok(rs), u) => match delimiters::flag(u, "mutual_authentication_flag") {
                    (Err(e), v) => (Err(e), v),
                    (Ok(mutual), v) => (
                        Ok(
                            DAuthentication {
                                rand1: Some(rand1),
                                rs: Some(rs),
                                mutual_authentication_flag: Some(mutual),
                                ..blank(sub_type)
                            },
                        ),
                        v,
                    ),
                },
            },
        },
        AuthenticationSubtype::Reject => match s.read(3, "reject_reason") {
            (Err(e), t) => (Err(e), t),
            (Ok(reason), t) => (
                Ok(DAuthentication { reject_reason: Some(reason as u8), ..blank(sub_type) }),
                t,
            ),
        },
        AuthenticationSubtype::Response => match s.read(32, "res2") {
            (Err(e), t) => (Err(e), t),
            (Ok(res2), t) => (Ok(DAuthentication { res2: Some(res2), ..blank(sub_type) }), t),
        },
        AuthenticationSubtype::Result => match delimiters::flag(s, "result") {
            (Err(e), t) => (Err(e), t),
            (Ok(result), t) => (Ok(DAuthentication { result: Some(result), ..blank(sub_type) }), t),
        },
    }
}

/// The optional part of a message, whose mandatory part is `known`.
pub open spec fn tail(s: BitState, known: DAuthentication) -> (
    Result<DAuthentication, PduParseErr>,
    BitState,
) {
    match delimiters::flag(s, "obit") {
        (Err(e), t) => (Err(e), t),
        (Ok(obit), t) => match typed::type2_generic(obit, t, 24, "address_extension") {
            (Err(e), u) => (Err(e), u),
            (Ok(address_extension), u) => match elements::proprietary_and_end(obit, u) {
                (Err(e), v) => (Err(e), v),
                (Ok(proprietary), v) => (
                    Ok(DAuthentication { address_extension, proprietary, ..known }),
                    v,
                ),
            },
        },
    }
}

/// A whole message.
pub open spec fn parsed(s: BitState) -> (Result<DAuthentication, PduParseErr>, BitState) {
    match s.read(4, "pdu_type") {
        (Err(e), t) => (Err(e), t),
        (Ok(pdu_type), t) => if pdu_type != elements::D_AUTHENTICATION {
            let e = PduParseErr::InvalidPduType {
                expected: elements::D_AUTHENTICATION,
                found: pdu_type,
            };
            (Err(e), t)
        } else {
            match t.read(2, "authentication_sub_type") {
                (Err(e), u) => (Err(e), u),
                (Ok(code), u) => match body(u, authentication_subtype::subtype_of(code).unwrap()) {
                    (Err(e), v) => (Err(e), v),
                    (Ok(known), v) => tail(v, known),
                },
            }
        },
    }
}

impl DAuthentication {
    /// The mandatory part behind the sub-type as it is sent. Where a value that belongs there is
    /// missing, zeros are sent.
    pub open spec fn body_bits(self) -> Seq<bool> {
        match self.sub_type {
            AuthenticationSubtype::Demand => bits::value_bits(
                elements::long_or_zero(self.rand1) as nat,
                80,
            ) + bits::value_bits(elements::long_or_zero(self.rs) as nat, 80) + seq![
                self.mutual_authentication_flag == Some(true),
            ],
            AuthenticationSubtype::Reject => bits::value_bits(
                elements::reason_or_zero(self.reject_reason) as nat,
                3,
            ),
            AuthenticationSubtype::Response => bits::value_bits(elements::or_zero(self.res2), 32),
            AuthenticationSubtype::Result => seq![self.result == Some(true)],
        }
    }

    /// The message has an optional element.
    pub open spec fn has_optional(self) -> bool {
        self.address_extension is Some || self.proprietary is Some
    }

    /// The optional part as it is sent.
    pub open spec fn tail_bits(self) -> Seq<bool> {
        if !self.has_optional() {
            seq![false]
        } else {
            seq![true] + typed::type2_bits(self.address_extension, 24)
                + elements::proprietary_and_end_bits(self.proprietary)
        }
    }

    /// The message as it is sent.
    pub open spec fn bits(self) -> Seq<bool> {
        bits::value_bits(elements::D_AUTHENTICATION as nat, 4) + bits::value_bits(
            self.sub_type.code() as nat,
            2,
        ) + self.body_bits() + self.tail_bits()
    }

    /// What is sent fits its fields. (Of RAND1 and RS the low 80 bits are sent.)
    pub open spec fn can_be_sent(self) -> bool {
        &&& self.sub_type is Reject ==> (self.reject_reason matches Some(v) ==> v < 8)
        &&& self.sub_type is Response ==> (self.res2 matches Some(v) ==> v < 0x1_0000_0000)
        &&& self.address_extension matches Some(v) ==> v < 0x100_0000
        &&& self.proprietary matches Some(f) ==> f.can_be_sent()
    }

    /// The message as it comes out of the bits that it was sent as: what its sub-type does not
    /// carry is missing, and what was missing and carried is zero.
    pub open spec fn received(self) -> DAuthentication {
        let known = DAuthentication {
            address_extension: self.address_extension,
            proprietary: elements::received(self.proprietary),
            ..blank(self.sub_type)
        };
        match self.sub_type {
            AuthenticationSubtype::Demand => DAuthentication {
                rand1: Some(elements::low_80(elements::long_or_zero(self.rand1))),
                rs: Some(elements::low_80(elements::long_or_zero(self.rs))),
                mutual_authentication_flag: Some(self.mutual_authentication_flag == Some(true)),
                ..known
            },
            AuthenticationSubtype::Reject => DAuthentication {
                reject_reason: Some(elements::reason_or_zero(self.reject_reason)),
                ..known
            },
            AuthenticationSubtype::Response => DAuthentication {
                res2: Some(elements::or_zero(self.res2) as u64),
                ..known
            },
            AuthenticationSubtype::Result => DAuthentication {
                result: Some(self.result == Some(true)),
                ..known
            },
        }
    }

    /// The message holds exactly what its sub-type carries.
    pub open spec fn is_complete(self) -> bool {
        &&& self.rand1 matches Some(v) ==> v < 0x1_0000_0000_0000_0000_0000
        &&& self.rs matches Some(v) ==> v < 0x1_0000_0000_0000_0000_0000
        &&& self.rand1 is Some <==> self.sub_type is Demand
        &&& self.rs is Some <==> self.sub_type is Demand
        &&& self.mutual_authentication_flag is Some <==> self.sub_type is Demand
        &&& self.reject_reason is Some <==> self.sub_type is Reject
        &&& self.res2 is Some <==> self.sub_type is Response
        &&& self.result is Some <==> self.sub_type is Result
        &&& self.proprietary == elements::received(self.proprietary)
    }

    /// Parse from BitBuffer
    pub fn from_bitbuf(buffer: &mut BitBuffer) -> (pdu: Result<Self, PduParseErr>)
        ensures
            (pdu, final(buffer)@) == parsed(old(buffer)@),
    {
        let pdu_type: u64 = match buffer.read_field(4, "pdu_type") {
            Err(e) => return Err(e),
            Ok(x) => x,
        };
        if pdu_type != elements::D_AUTHENTICATION {
            return Err(
                PduParseErr::InvalidPduType {
                    expected: elements::D_AUTHENTICATION,
                    found: pdu_type,
                },
            );
        }
        proof {
            lemma2_to64();
        }
        let sub_type = match buffer.read_field(2, "authentication_sub_type") {
            Err(e) => return Err(e),
            Ok(raw) => match AuthenticationSubtype::try_from(raw) {
                Err(_) => {
                    return Err(
                        PduParseErr::BufferEnded { field: Some("authentication_sub_type") },
                    );
                },
                Ok(sub_type) => sub_type,
            },
        };

        let mut s = DAuthentication {
            sub_type,
            rand1: None,
            rs: None,
            mutual_authentication_flag: None,
            reject_reason: None,
            res2: None,
            result: None,
            address_extension: None,
            proprietary: None,
        };
        match sub_type {
            AuthenticationSubtype::Demand => {
                match elements::read_field_80(buffer, "rand1") {
                    Err(e) => return Err(e),
                    Ok(rand1) => {
                        s.rand1 = Some(rand1);
                    },
                }
                match elements::read_field_80(buffer, "rs") {
                    Err(e) => return Err(e),
                    Ok(rs) => {
                        s.rs = Some(rs);
                    },
                }
                match delimiters::read_flag(buffer, "mutual_authentication_flag") {
                    Err(e) => return Err(e),
                    Ok(mutual) => {
                        s.mutual_authentication_flag = Some(mutual);
                    },
                }
            },
            AuthenticationSubtype::Reject => {
                match buffer.read_field(3, "reject_reason") {
                    Err(e) => return Err(e),
                    Ok(reason) => {
                        s.reject_reason = Some(reason as u8);
                    },
                }
            },
            AuthenticationSubtype::Response => {
                match buffer.read_field(32, "res2") {
                    Err(e) => return Err(e),
                    Ok(res2) => {
                        s.res2 = Some(res2);
                    },
                }
            },
            AuthenticationSubtype::Result => {
                match delimiters::read_flag(buffer, "result") {
                    Err(e) => return Err(e),
                    Ok(result) => {
                        s.result = Some(result);
                    },
                }
            },
        }

        // obit designates presence of any further type2, type3 or type4 fields
        let obit: bool = match delimiters::read_obit(buffer) {
            Err(e) => return Err(e),
            Ok(obit) => obit,
        };

        // Type2
        match typed::parse_type2_generic(obit, buffer, 24, "address_extension") {
            Err(e) => return Err(e),
            Ok(address_extension) => {
                s.address_extension = address_extension;
            },
        }

        // Type3 and trailing mbit
        match elements::parse_proprietary_and_end(obit, buffer) {
            Err(e) => Err(e),
            Ok(proprietary) => {
                s.proprietary = proprietary;
                Ok(s)
            },
        }
    }

    /// Write the mandatory part behind the sub-type.
    fn write_body(&self, buffer: &mut BitBuffer)
        requires
            self.can_be_sent(),
            old(buffer)@.has_room(self.body_bits().len() as int),
        ensures
            final(buffer)@ == old(buffer)@.write(self.body_bits()),
    {
        let ghost start = buffer@;
        proof {
            use_type_invariant(&*buffer);
            lemma2_to64();
        }
        match self.sub_type {
            AuthenticationSubtype::Demand => {
                let rand1: u128 = self.rand1.unwrap_or(0);
                let rs: u128 = self.rs.unwrap_or(0);
                let mutual: bool = self.mutual_authentication_flag.unwrap_or(false);
                proof {
                    let rand1_bits = bits::value_bits(rand1 as nat, 80);
                    let rs_bits = bits::value_bits(rs as nat, 80);
                    bits::lemma_value_bits_len(rand1 as nat, 80);
                    bits::lemma_value_bits_len(rs as nat, 80);
                    bitbuffer::lemma_room_left(start, rand1_bits, 81);
                    bitbuffer::lemma_write_twice(start, rand1_bits, rs_bits);
                    bitbuffer::lemma_room_left(start, rand1_bits + rs_bits, 1);
                    bitbuffer::lemma_write_twice(start, rand1_bits + rs_bits, seq![mutual]);
                }
                elements::write_field_80(buffer, rand1);
                elements::write_field_80(buffer, rs);
                buffer.write_bit(mutual as u8);
            },
            AuthenticationSubtype::Reject => {
                let reason: u8 = self.reject_reason.unwrap_or(0);
                proof {
                    bits::lemma_value_bits_len(reason as nat, 3);
                }
                buffer.write_bits(reason as u64, 3);
            },
            AuthenticationSubtype::Response => {
                let res2: u64 = self.res2.unwrap_or(0);
                proof {
                    bits::lemma_value_bits_len(res2 as nat, 32);
                }
                buffer.write_bits(res2, 32);
            },
            AuthenticationSubtype::Result => {
                buffer.write_bit(self.result.unwrap_or(false) as u8);
            },
        }
    }

    /// Serialize this PDU into the given BitBuffer.
    pub fn to_bitbuf(&self, buffer: &mut BitBuffer) -> (written: Result<(), PduParseErr>)
        requires
            self.can_be_sent(),
            old(buffer)@.has_room(self.bits().len() as int),
        ensures
            written == Ok::<(), PduParseErr>(()),
            final(buffer)@ == old(buffer)@.write(self.bits()),
    {
        let ghost start = buffer@;
        let ghost pdu_type = bits::value_bits(elements::D_AUTHENTICATION as nat, 4);
        let ghost code = bits::value_bits(self.sub_type.code() as nat, 2);
        let ghost (body, tail) = (self.body_bits(), self.tail_bits());
        proof {
            use_type_invariant(&*buffer);
            lemma2_to64();
            bits::lemma_value_bits_len(elements::D_AUTHENTICATION as nat, 4);
            bits::lemma_value_bits_len(self.sub_type.code() as nat, 2);
            bitbuffer::lemma_room_left(start, pdu_type, 2 + body.len() + tail.len());
            bitbuffer::lemma_write_twice(start, pdu_type, code);
            bitbuffer::lemma_room_left(start, pdu_type + code, body.len() + tail.len());
            bitbuffer::lemma_write_twice(start, pdu_type + code, body);
            bitbuffer::lemma_room_left(start, pdu_type + code + body, tail.len());
            bitbuffer::lemma_write_twice(start, pdu_type + code + body, tail);
        }
        // PDU Type
        buffer.write_bits(elements::D_AUTHENTICATION, 4);
        // Authentication sub-type
        buffer.write_bits(self.sub_type.into_raw(), 2);
        self.write_body(buffer);

        // Check if any optional field present and place o-bit
        let ghost before_tail = buffer@;
        let obit: bool = self.address_extension.is_some() || self.proprietary.is_some();
        proof {
            if obit {
                let address = typed::type2_bits(self.address_extension, 24);
                let end = elements::proprietary_and_end_bits(self.proprietary);
                bitbuffer::lemma_room_left(before_tail, seq![true], address.len() + end.len());
                bitbuffer::lemma_write_twice(before_tail, seq![true], address);
                bitbuffer::lemma_room_left(before_tail, seq![true] + address, end.len());
                bitbuffer::lemma_write_twice(before_tail, seq![true] + address, end);
            }
        }
        delimiters::write_obit(buffer, obit as u8);
        if !obit {
            return Ok(());
        }

        // Type2
        typed::write_type2_generic(obit, buffer, self.address_extension, 24);

        // Type3 and terminating m-bit
        elements::write_proprietary_and_end(buffer, &self.proprietary)
    }
}

impl DAuthentication {
    /// The message as a log shows it.
    pub open spec fn shown(self) -> Seq<char> {
        "DAuthentication { sub_type: "@
            + self.sub_type.name()
            + " rand1: "@
            + text::option_number(self.rand1)
            + " rs: "@
            + text::option_number(self.rs)
            + " mutual_authentication_flag: "@
            + text::option_bool(self.mutual_authentication_flag)
            + " reject_reason: "@
            + text::option_number(elements::widened_u8(self.reject_reason))
            + " res2: "@
            + text::option_number(elements::widened(self.res2))
            + " result: "@
            + text::option_bool(self.result)
            + " address_extension: "@
            + text::option_number(elements::widened(self.address_extension))
            + " proprietary: "@
            + typed_pdu_fields::shown_element(self.proprietary)
            + " }"@
    }

    /// The message as a log shows it.
    pub fn to_string(&self) -> (text: String)
        ensures
            text@ == self.shown(),
    {
        let mut text = String::from_str("DAuthentication { sub_type: ");
        text.append(self.sub_type.to_string().as_str());
        text.append(" rand1: ");
        text::push_option_number(&mut text, self.rand1);
        text.append(" rs: ");
        text::push_option_number(&mut text, self.rs);
        text.append(" mutual_authentication_flag: ");
        text::push_option_bool(&mut text, self.mutual_authentication_flag);
        text.append(" reject_reason: ");
        text::push_option_number(
            &mut text,
            match self.reject_reason {
                Some(v) => Some(v as u128),
                None => None,
            },
        );
        text.append(" res2: ");
        text::push_option_number(
            &mut text,
            match self.res2 {
                Some(v) => Some(v as u128),
                None => None,
            },
        );
        text.append(" result: ");
        text::push_option_bool(&mut text, self.result);
        text.append(" address_extension: ");
        text::push_option_number(
            &mut text,
            match self.address_extension {
                Some(v) => Some(v as u128),
                None => None,
            },
        );
        text.append(" proprietary: ");
        typed_pdu_fields::push_shown_element(&mut text, &self.proprietary);
        text.append(" }");
        text
    }
}

/// The mandatory part of a message is read as it was written.
proof fn lemma_body_read_back(s: BitState, pdu: DAuthentication)
    requires
        s.well_formed(),
        pdu.can_be_sent(),
        s.next_is(pdu.body_bits()),
    ensures
        body(s, pdu.sub_type) == (
            Ok::<_, PduParseErr>(
                DAuthentication { address_extension: None, proprietary: None, ..pdu.received() },
            ),
            s.skip(pdu.body_bits().len() as int),
        ),
{
    lemma2_to64();
    match pdu.sub_type {
        AuthenticationSubtype::Demand => {
            let rand1 = elements::long_or_zero(pdu.rand1);
            let rs = elements::long_or_zero(pdu.rs);
            let mutual = pdu.mutual_authentication_flag == Some(true);
            let rand1_bits = bits::value_bits(rand1 as nat, 80);
            let rs_bits = bits::value_bits(rs as nat, 80);
            bits::lemma_value_bits_len(rand1 as nat, 80);
            bits::lemma_value_bits_len(rs as nat, 80);
            bitbuffer::lemma_next_is_split(s, rand1_bits + rs_bits, seq![mutual]);
            bitbuffer::lemma_next_is_split(s, rand1_bits, rs_bits);
            elements::law_field_80_read_back(s, rand1, "rand1");
            elements::law_field_80_read_back(s.skip(80), rs, "rs");
            bitbuffer::lemma_bit_is_next(s.skip(160), mutual);
        },
        AuthenticationSubtype::Reject => {
            let reason = elements::reason_or_zero(pdu.reject_reason) as nat;
            bits::lemma_value_bits_len(reason, 3);
            bitbuffer::lemma_value_is_next(s, reason, 3);
        },
        AuthenticationSubtype::Response => {
            let res2 = elements::or_zero(pdu.res2);
            bits::lemma_value_bits_len(res2, 32);
            bitbuffer::lemma_value_is_next(s, res2, 32);
        },
        AuthenticationSubtype::Result => {
            bitbuffer::lemma_bit_is_next(s, pdu.result == Some(true));
        },
    }
}

/// A message that was sent is received: reading its bits gives it back, with what its sub-type
/// does not carry left out, and the cursor stands behind it.
pub proof fn law_d_authentication_read_back(s: BitState, pdu: DAuthentication)
    requires
        s.well_formed(),
        pdu.can_be_sent(),
        s.next_is(pdu.bits()),
    ensures
        parsed(s) == (Ok::<_, PduParseErr>(pdu.received()), s.skip(pdu.bits().len() as int)),
{
    lemma2_to64();
    let pdu_type = bits::value_bits(elements::D_AUTHENTICATION as nat, 4);
    let code = bits::value_bits(pdu.sub_type.code() as nat, 2);
    let (body, tail) = (pdu.body_bits(), pdu.tail_bits());
    bits::lemma_value_bits_len(elements::D_AUTHENTICATION as nat, 4);
    bits::lemma_value_bits_len(pdu.sub_type.code() as nat, 2);
    bitbuffer::lemma_next_is_split(s, pdu_type + code + body, tail);
    bitbuffer::lemma_next_is_split(s, pdu_type + code, body);
    bitbuffer::lemma_next_is_split(s, pdu_type, code);
    bitbuffer::lemma_value_is_next(s, elements::D_AUTHENTICATION as nat, 4);
    bitbuffer::lemma_value_is_next(s.skip(4), pdu.sub_type.code() as nat, 2);
    authentication_subtype::law_subtype_codes_are_exact(pdu.sub_type, 0);
    lemma_body_read_back(s.skip(6), pdu);
    lemma_tail_read_back(
        s.skip(6int + body.len()),
        pdu,
        DAuthentication { address_extension: None, proprietary: None, ..pdu.received() },
    );
}

/// The optional part of a message is read as it was written.
proof fn lemma_tail_read_back(t: BitState, pdu: DAuthentication, known: DAuthentication)
    requires
        t.well_formed(),
        pdu.can_be_sent(),
        t.next_is(pdu.tail_bits()),
        known.address_extension is None,
        known.proprietary is None,
    ensures
        tail(t, known) == (
            Ok::<_, PduParseErr>(
                DAuthentication {
                    address_extension: pdu.address_extension,
                    proprietary: elements::received(pdu.proprietary),
                    ..known
                },
            ),
            t.skip(pdu.tail_bits().len() as int),
        ),
{
    if !pdu.has_optional() {
        bitbuffer::lemma_bit_is_next(t, false);
    } else {
        lemma2_to64();
        let address = typed::type2_bits(pdu.address_extension, 24);
        let end = elements::proprietary_and_end_bits(pdu.proprietary);
        bitbuffer::lemma_next_is_split(t, seq![true] + address, end);
        bitbuffer::lemma_next_is_split(t, seq![true], address);
        bitbuffer::lemma_bit_is_next(t, true);
        laws::law_type2_read_back(t.skip(1), pdu.address_extension, 24, "address_extension");
        elements::law_end_read_back(t.skip(1int + address.len()), pdu.proprietary);
    }
}

/// A message that holds exactly what its sub-type carries comes out of the buffer that it was put
/// in as it was.
pub proof fn law_sent_is_received(s: BitState, pdu: DAuthentication)
    requires
        s.well_formed(),
        pdu.can_be_sent(),
        pdu.is_complete(),
        s.has_room(pdu.bits().len() as int),
    ensures
        parsed(s.write(pdu.bits()).at(s.pos)) == (
            Ok::<_, PduParseErr>(pdu),
            s.write(pdu.bits()),
        ),
{
    bitbuffer::lemma_room_left(s, pdu.bits(), 0);
    bitbuffer::lemma_written_is_next(s, pdu.bits());
    law_d_authentication_read_back(s.write(pdu.bits()).at(s.pos), pdu);
    let received = pdu.received();
    assert(received.rand1 == pdu.rand1 && received.rs == pdu.rs);
    assert(received.mutual_authentication_flag == pdu.mutual_authentication_flag);
    assert(received.reject_reason == pdu.reject_reason);
    assert(received.res2 == pdu.res2);
    assert(received.result == pdu.result);
}

/// A message that was received and is sent on is sent as the same bits, and received unchanged.
pub proof fn law_received_is_stable(pdu: DAuthentication)
    requires
        pdu.can_be_sent(),
    ensures
        pdu.received().received() == pdu.received(),
        pdu.received().bits() == pdu.bits(),
        pdu.received().can_be_sent(),
{
    lemma2_to64_rest();
    elements::lemma_pow2_80();
    bits::lemma_value_bits_low(elements::long_or_zero(pdu.rand1) as nat, 80, 80);
    bits::lemma_value_bits_low(elements::long_or_zero(pdu.rs) as nat, 80, 80);
    if let Some(f) = pdu.proprietary {
        if f.len <= 64 {
            bits::lemma_value_bits_low(f.data as nat, f.len as nat, 64);
        }
        assert(elements::received(pdu.proprietary).unwrap().contents() == f.contents());
    }
    assert(pdu.received().body_bits() == pdu.body_bits());
    assert(pdu.received().tail_bits() == pdu.tail_bits());
}

/// The mandatory part that was read is the one that would be written.
proof fn lemma_body_written_back(s: BitState, sub_type: AuthenticationSubtype)
    requires
        s.well_formed(),
    ensures
        body(s, sub_type) matches (Ok(pdu), t) ==> {
            &&& pdu.sub_type == sub_type
            &&& !pdu.has_optional()
            &&& pdu.can_be_sent()
            &&& s.next_is(pdu.body_bits())
            &&& t == s.skip(pdu.body_bits().len() as int)
        },
{
    lemma2_to64();
    if let (Ok(pdu), t) = body(s, sub_type) {
        match sub_type {
            AuthenticationSubtype::Demand => {
                let mutual = s.bits[s.pos + 160];
                let rand1_bits = bits::value_bits(s.value(80), 80);
                let rs_bits = bits::value_bits(s.skip(80).value(80), 80);
                elements::lemma_field_80_written_back(s);
                elements::lemma_field_80_written_back(s.skip(80));
                bitbuffer::lemma_bit_is_next(s.skip(160), mutual);
                bitbuffer::lemma_next_is_split(s, rand1_bits, rs_bits);
                bitbuffer::lemma_next_is_split(s, rand1_bits + rs_bits, seq![mutual]);
            },
            AuthenticationSubtype::Reject => {
                bits::lemma_bits_value_bound(s.bits.subrange(s.pos, s.pos + 3));
                bitbuffer::lemma_next_is_value(s, 3);
                bits::lemma_value_bits_len(s.value(3), 3);
            },
            AuthenticationSubtype::Response => {
                bits::lemma_bits_value_bound(s.bits.subrange(s.pos, s.pos + 32));
                bitbuffer::lemma_next_is_value(s, 32);
                bits::lemma_value_bits_len(s.value(32), 32);
            },
            AuthenticationSubtype::Result => {
                bitbuffer::lemma_bit_is_next(s, s.bits[s.pos]);
            },
        }
    }
}

/// The O-bit of the message `pdu` that starts at the cursor.
pub open spec fn obit_of(s: BitState, pdu: DAuthentication) -> bool {
    s.bits[s.pos + 6 + pdu.body_bits().len()]
}

/// A message that was received can be sent again, and is sent as the very bits that were read, if
/// its Proprietary element has no more than 128 bits, and it has an optional element if its O-bit
/// is set.
pub proof fn law_d_authentication_written_back(s: BitState)
    requires
        s.well_formed(),
    ensures
        parsed(s) matches (Ok(pdu), t) ==> (pdu.proprietary matches Some(f) ==> f.len <= 128) && (
        obit_of(s, pdu) ==> pdu.has_optional()) ==> {
            &&& pdu.can_be_sent()
            &&& s.next_is(pdu.bits())
            &&& t == s.skip(pdu.bits().len() as int)
        },
{
    if let (Ok(pdu), t) = parsed(s) {
        lemma2_to64();
        bits::lemma_bits_value_bound(s.bits.subrange(s.pos, s.pos + 4));
        bits::lemma_bits_value_bound(s.bits.subrange(s.pos + 4, s.pos + 6));
        bitbuffer::lemma_next_is_value(s, 4);
        bitbuffer::lemma_next_is_value(s.skip(4), 2);
        bits::lemma_value_bits_len(elements::D_AUTHENTICATION as nat, 4);
        bits::lemma_value_bits_len(pdu.sub_type.code() as nat, 2);
        let raw = s.skip(4).value(2) as u64;
        let sub_type = authentication_subtype::subtype_of(raw).unwrap();
        authentication_subtype::law_subtype_codes_are_exact(sub_type, raw);
        lemma_body_written_back(s.skip(6), sub_type);
        let (body_read, u) = body(s.skip(6), sub_type);
        let known = body_read.unwrap();
        assert(pdu.body_bits() == known.body_bits());
        let pdu_type = bits::value_bits(elements::D_AUTHENTICATION as nat, 4);
        let code = bits::value_bits(pdu.sub_type.code() as nat, 2);
        let before = pdu_type + code + pdu.body_bits();
        bitbuffer::lemma_next_is_split(s, pdu_type, code);
        bitbuffer::lemma_next_is_split(s, pdu_type + code, pdu.body_bits());
        let obit = u.bits[u.pos];
        bitbuffer::lemma_bit_is_next(u, obit);
        if obit {
            let address = typed::type2_bits(pdu.address_extension, 24);
            lemma_address_written_back(u.skip(1));
            let v = u.skip(1int + address.len());
            elements::law_end_written_back(v);
            if (pdu.proprietary matches Some(f) ==> f.len <= 128) {
                let end = elements::proprietary_and_end_bits(pdu.proprietary);
                bitbuffer::lemma_next_is_split(u, seq![true], address);
                bitbuffer::lemma_next_is_split(u, seq![true] + address, end);
                bitbuffer::lemma_next_is_split(s, before, seq![true] + address + end);
            }
        } else {
            bitbuffer::lemma_next_is_split(s, before, seq![false]);
        }
    }
}

/// The address extension that was read is the one that would be written.
proof fn lemma_address_written_back(s: BitState)
    requires
        s.well_formed(),
    ensures
        typed::type2_generic(true, s, 24, "address_extension") matches (Ok(address), t) ==> {
            &&& address matches Some(v) ==> v < 0x100_0000
            &&& s.next_is(typed::type2_bits(address, 24))
            &&& t == s.skip(typed::type2_bits(address, 24).len() as int)
        },
{
    if let (Ok(address), t) = typed::type2_generic(true, s, 24, "address_extension") {
        lemma2_to64();
        bitbuffer::lemma_bit_is_next(s, s.bits[s.pos]);
        if address is Some {
            let u = s.skip(1);
            bits::lemma_bits_value_bound(u.bits.subrange(u.pos, u.pos + 24));
            bitbuffer::lemma_next_is_value(u, 24);
            bits::lemma_value_bits_len(u.value(24), 24);
            bitbuffer::lemma_next_is_split(s, seq![true], bits::value_bits(u.value(24), 24));
        }
    }
}

/// A message is shown by its sub-type and its elements, in the order of the structure.
pub proof fn law_d_authentication_is_shown_by_its_elements(pdu: DAuthentication, t: String)
    requires
        call_ensures(DAuthentication::to_string, (&pdu,), t),
    ensures
        t@ == "DAuthentication { sub_type: "@ + pdu.sub_type.name() + " rand1: "@
            + text::option_number(pdu.rand1) + " rs: "@ + text::option_number(pdu.rs)
            + " mutual_authentication_flag: "@ + text::option_bool(pdu.mutual_authentication_flag)
            + " reject_reason: "@ + text::option_number(
            match pdu.reject_reason {
                Some(v) => Some(v as u128),
                None => None,
            },
        ) + " res2: "@ + text::option_number(
            match pdu.res2 {
                Some(v) => Some(v as u128),
                None => None,
            },
        ) + " result: "@ + text::option_bool(pdu.result) + " address_extension: "@
            + text::option_number(
            match pdu.address_extension {
                Some(v) => Some(v as u128),
                None => None,
            },
        ) + " proprietary: "@ + typed_pdu_fields::shown_element(pdu.proprietary) + " }"@,
{
}

} // verus!
