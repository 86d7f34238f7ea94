use flowstation::bitbuffer::BitBuffer;
use flowstation::mm::authentication_subtype::{AuthenticationSubtype, AUTH_REJECT_NOT_SUPPORTED};
use flowstation::mm::d_authentication::DAuthentication;
use flowstation::mm::u_authentication::UAuthentication;
use flowstation::pdu_parse_error::PduParseErr;
use flowstation::typed_pdu_fields::Type3FieldGeneric;

/// Guard the exact Table A.40 encoding — this is what a real terminal decodes against.
#[test]
fn subtype_values_match_table_a40() {
    assert_eq!(AuthenticationSubtype::Demand.into_raw(), 0b00);
    assert_eq!(AuthenticationSubtype::Response.into_raw(), 0b01);
    assert_eq!(AuthenticationSubtype::Result.into_raw(), 0b10);
    assert_eq!(AuthenticationSubtype::Reject.into_raw(), 0b11);

    for raw in 0u64..4 {
        let st = AuthenticationSubtype::try_from(raw).expect("all 4 values are defined");
        assert_eq!(st.into_raw(), raw, "round-trip must be exact");
    }
    assert!(AuthenticationSubtype::try_from(4).is_err());
}

#[test]
fn subtypes_have_names() {
    assert_eq!(AuthenticationSubtype::Demand.to_string(), "Demand");
    assert_eq!(AuthenticationSubtype::Response.to_string(), "Response");
    assert_eq!(AuthenticationSubtype::Result.to_string(), "Result");
    assert_eq!(AuthenticationSubtype::Reject.to_string(), "Reject");
    assert_eq!(u64::from(AuthenticationSubtype::Reject), 3);
    assert_eq!(AUTH_REJECT_NOT_SUPPORTED, 0);
}

/// Round-trip a Demand PDU (the case with the widest fields) through encode/decode.
#[test]
fn test_d_authentication_demand_roundtrip() {
    let pdu = DAuthentication {
        sub_type: AuthenticationSubtype::Demand,
        rand1: Some(0x1234_5678_9ABC_DEF0_1122u128),
        rs: Some(0xAAAA_BBBB_CCCC_DDDD_EEEEu128),
        mutual_authentication_flag: Some(true),
        reject_reason: None,
        res2: None,
        result: None,
        address_extension: None,
        proprietary: None,
    };

    let mut buf_out = BitBuffer::new_autoexpand(32);
    pdu.to_bitbuf(&mut buf_out).unwrap();

    let mut buf_in = BitBuffer::from_bitstr(&buf_out.to_bitstr());
    let parsed = DAuthentication::from_bitbuf(&mut buf_in).expect("Failed parsing");

    assert_eq!(parsed.sub_type, AuthenticationSubtype::Demand);
    assert_eq!(parsed.rand1, pdu.rand1);
    assert_eq!(parsed.rs, pdu.rs);
    assert_eq!(parsed.mutual_authentication_flag, pdu.mutual_authentication_flag);
}

/// Round-trip a Result PDU (the minimal case: a single flag bit).
#[test]
fn test_d_authentication_result_roundtrip() {
    let pdu = DAuthentication {
        sub_type: AuthenticationSubtype::Result,
        rand1: None,
        rs: None,
        mutual_authentication_flag: None,
        reject_reason: None,
        res2: None,
        result: Some(true),
        address_extension: None,
        proprietary: None,
    };

    let mut buf_out = BitBuffer::new_autoexpand(32);
    pdu.to_bitbuf(&mut buf_out).unwrap();

    let mut buf_in = BitBuffer::from_bitstr(&buf_out.to_bitstr());
    let parsed = DAuthentication::from_bitbuf(&mut buf_in).expect("Failed parsing");

    assert_eq!(parsed.sub_type, AuthenticationSubtype::Result);
    assert_eq!(parsed.result, Some(true));
}

const RAND2: u128 = 0x0F0F_0F0F_0F0F_0F0F_0F0Fu128;

/// Table A.7 — the PDU the SwMI is actually waiting for after a DEMAND. RES1 then the
/// mandatory mutual flag; RAND2 only if that flag is set.
#[test]
fn response_layout_matches_table_a7() {
    let pdu = UAuthentication {
        sub_type: AuthenticationSubtype::Response,
        rand2: None,
        reject_reason: None,
        res1: Some(0xDEAD_BEEF),
        result: None,
        mutual_authentication_flag: Some(false),
        proprietary: None,
    };
    let mut out = BitBuffer::new_autoexpand(16);
    pdu.to_bitbuf(&mut out).unwrap();
    let bits = out.to_bitstr();

    assert_eq!(bits.len(), 4 + 2 + 32 + 1 + 1, "non-mutual RESPONSE length");
    assert_eq!(&bits[0..4], "0000", "PDU type must be U-AUTHENTICATION (0000)");
    assert_eq!(&bits[4..6], "01", "sub-type must be RESPONSE (01)");
    assert_eq!(u64::from_str_radix(&bits[6..38], 2).unwrap(), 0xDEAD_BEEF);
    assert_eq!(&bits[38..39], "0", "mutual flag");

    let mut inb = BitBuffer::from_bitstr(&bits);
    let parsed = UAuthentication::from_bitbuf(&mut inb).unwrap();
    assert_eq!(parsed.res1, Some(0xDEAD_BEEF));
    assert_eq!(parsed.mutual_authentication_flag, Some(false));
    assert_eq!(parsed.rand2, None, "RAND2 must be absent when mutual flag = 0");
}

#[test]
fn response_with_mutual_flag_carries_rand2() {
    let pdu = UAuthentication {
        sub_type: AuthenticationSubtype::Response,
        rand2: Some(RAND2),
        reject_reason: None,
        res1: Some(0x1111_2222),
        result: None,
        mutual_authentication_flag: Some(true),
        proprietary: None,
    };
    let mut out = BitBuffer::new_autoexpand(32);
    pdu.to_bitbuf(&mut out).unwrap();
    assert_eq!(out.to_bitstr().len(), 4 + 2 + 32 + 1 + 80 + 1);

    let mut inb = BitBuffer::from_bitstr(&out.to_bitstr());
    let parsed = UAuthentication::from_bitbuf(&mut inb).unwrap();
    assert_eq!(parsed.res1, Some(0x1111_2222));
    assert_eq!(parsed.rand2, Some(RAND2), "RAND2 must be present when mutual flag = 1");
}

/// Table A.5
#[test]
fn demand_layout_matches_table_a5() {
    let pdu = UAuthentication {
        sub_type: AuthenticationSubtype::Demand,
        rand2: Some(RAND2),
        reject_reason: None,
        res1: None,
        result: None,
        mutual_authentication_flag: None,
        proprietary: None,
    };
    let mut out = BitBuffer::new_autoexpand(32);
    pdu.to_bitbuf(&mut out).unwrap();
    let bits = out.to_bitstr();
    assert_eq!(bits.len(), 4 + 2 + 80 + 1);
    assert_eq!(&bits[4..6], "00", "sub-type must be DEMAND (00)");

    let mut inb = BitBuffer::from_bitstr(&bits);
    let parsed = UAuthentication::from_bitbuf(&mut inb).unwrap();
    assert_eq!(parsed.rand2, Some(RAND2));
}

/// Table A.8
#[test]
fn result_layout_matches_table_a8() {
    let pdu = UAuthentication {
        sub_type: AuthenticationSubtype::Result,
        rand2: None,
        reject_reason: None,
        res1: None,
        result: Some(true),
        mutual_authentication_flag: Some(false),
        proprietary: None,
    };
    let mut out = BitBuffer::new_autoexpand(8);
    pdu.to_bitbuf(&mut out).unwrap();
    let bits = out.to_bitstr();
    assert_eq!(bits.len(), 4 + 2 + 1 + 1 + 1);
    assert_eq!(&bits[4..6], "10", "sub-type must be RESULT (10)");

    let mut inb = BitBuffer::from_bitstr(&bits);
    let parsed = UAuthentication::from_bitbuf(&mut inb).unwrap();
    assert_eq!(parsed.result, Some(true));
}

/// Table A.6
#[test]
fn reject_layout_matches_table_a6() {
    let pdu = UAuthentication {
        sub_type: AuthenticationSubtype::Reject,
        rand2: None,
        reject_reason: Some(0b000),
        res1: None,
        result: None,
        mutual_authentication_flag: None,
        proprietary: None,
    };
    let mut out = BitBuffer::new_autoexpand(8);
    pdu.to_bitbuf(&mut out).unwrap();
    let bits = out.to_bitstr();
    assert_eq!(bits.len(), 4 + 2 + 3 + 1);
    assert_eq!(&bits[4..6], "11", "sub-type must be REJECT (11)");

    let mut inb = BitBuffer::from_bitstr(&bits);
    let parsed = UAuthentication::from_bitbuf(&mut inb).unwrap();
    assert_eq!(parsed.reject_reason, Some(0));
}

fn blank_u(sub_type: AuthenticationSubtype) -> UAuthentication {
    UAuthentication {
        sub_type,
        rand2: None,
        reject_reason: None,
        res1: None,
        result: None,
        mutual_authentication_flag: None,
        proprietary: None,
    }
}

fn blank_d(sub_type: AuthenticationSubtype) -> DAuthentication {
    DAuthentication {
        sub_type,
        rand1: None,
        rs: None,
        mutual_authentication_flag: None,
        reject_reason: None,
        res2: None,
        result: None,
        address_extension: None,
        proprietary: None,
    }
}

fn sent_u(pdu: &UAuthentication) -> String {
    let mut out = BitBuffer::new_autoexpand(64);
    assert_eq!(pdu.to_bitbuf(&mut out), Ok(()));
    out.to_bitstr()
}

fn sent_d(pdu: &DAuthentication) -> String {
    let mut out = BitBuffer::new_autoexpand(64);
    assert_eq!(pdu.to_bitbuf(&mut out), Ok(()));
    out.to_bitstr()
}

#[test]
fn what_the_sub_type_does_not_carry_is_left_out() {
    let everything = UAuthentication {
        sub_type: AuthenticationSubtype::Result,
        rand2: Some(1),
        reject_reason: Some(7),
        res1: Some(0x8000_0001),
        result: None,
        mutual_authentication_flag: Some(true),
        proprietary: Some(Type3FieldGeneric { field_id: 3, len: 5, data: 0b10011 }),
    };
    let bits = sent_u(&everything);
    assert_eq!(
        bits,
        format!("0000100{}{:032b}1{}{:011b}100110", 1, 0x8000_0001u64, "11111", 5)
    );
    let mut inb = BitBuffer::from_bitstr(&bits);
    let parsed = UAuthentication::from_bitbuf(&mut inb).unwrap();
    assert_eq!(inb.get_len_remaining(), 0);
    assert_eq!(parsed.rand2, None);
    assert_eq!(parsed.reject_reason, None);
    assert_eq!(parsed.res1, Some(0x8000_0001));
    assert_eq!(parsed.result, Some(false));
    assert_eq!(parsed.mutual_authentication_flag, Some(true));
    assert_eq!(
        parsed.proprietary,
        Some(Type3FieldGeneric { field_id: 15, len: 5, data: 0b10011 })
    );
    assert_eq!(sent_u(&parsed), bits);
    assert_eq!(
        parsed.to_string(),
        "UAuthentication { sub_type: Result rand2: None reject_reason: None res1: Some(2147483649) \
         result: Some(false) mutual: Some(true) proprietary: Some(Type3FieldGeneric { field_id: 15, \
         len: 5, data: 19 }) }"
    );
}

#[test]
fn missing_values_are_sent_as_zeros() {
    assert_eq!(sent_u(&blank_u(AuthenticationSubtype::Demand)), "0".repeat(87));
    assert_eq!(sent_u(&blank_u(AuthenticationSubtype::Reject)), "0000110000");
    assert_eq!(sent_d(&blank_d(AuthenticationSubtype::Response)), format!("000101{}", "0".repeat(33)));
    assert_eq!(
        sent_d(&blank_d(AuthenticationSubtype::Demand)),
        format!("000100{}", "0".repeat(162))
    );
    // Of a longer number the low 80 bits are sent.
    let long = UAuthentication {
        rand2: Some(u128::MAX),
        ..blank_u(AuthenticationSubtype::Demand)
    };
    assert_eq!(sent_u(&long), format!("000000{}0", "1".repeat(80)));
}

#[test]
fn the_address_extension_stands_before_the_proprietary_element() {
    let pdu = DAuthentication {
        reject_reason: Some(5),
        address_extension: Some(0x00C0_FFEE),
        proprietary: Some(Type3FieldGeneric { field_id: 15, len: 100, data: 1u128 << 99 }),
        ..blank_d(AuthenticationSubtype::Reject)
    };
    let bits = sent_d(&pdu);
    assert_eq!(
        bits,
        format!("000111101{}1{:024b}11111{:011b}1{}0", 1, 0x00C0_FFEE, 100, "0".repeat(99))
    );
    let mut inb = BitBuffer::from_bitstr(&bits);
    let parsed = DAuthentication::from_bitbuf(&mut inb).unwrap();
    assert_eq!(inb.get_len_remaining(), 0);
    assert_eq!(parsed.reject_reason, Some(5));
    assert_eq!(parsed.address_extension, Some(0x00C0_FFEE));
    assert_eq!(parsed.proprietary, pdu.proprietary);
    assert_eq!(sent_d(&parsed), bits);
    // Without an address extension its P-bit is 0.
    let pdu = DAuthentication {
        result: Some(true),
        proprietary: Some(Type3FieldGeneric { field_id: 15, len: 1, data: 1 }),
        ..blank_d(AuthenticationSubtype::Result)
    };
    assert_eq!(sent_d(&pdu), format!("000110110{}{:011b}10", "11111", 1));
    assert_eq!(
        pdu.to_string(),
        "DAuthentication { sub_type: Result rand1: None rs: None mutual_authentication_flag: None \
         reject_reason: None res2: None result: Some(true) address_extension: None proprietary: \
         Some(Type3FieldGeneric { field_id: 15, len: 1, data: 1 }) }"
    );
}

#[test]
fn malformed_messages_are_refused() {
    let u = |bits: &str| UAuthentication::from_bitbuf(&mut BitBuffer::from_bitstr(bits)).err();
    let d = |bits: &str| DAuthentication::from_bitbuf(&mut BitBuffer::from_bitstr(bits)).err();
    let ended = |field| Some(PduParseErr::BufferEnded { field: Some(field) });
    assert_eq!(u("000"), ended("pdu_type"));
    assert_eq!(u("0001"), Some(PduParseErr::InvalidPduType { expected: 0, found: 1 }));
    assert_eq!(d("0010"), Some(PduParseErr::InvalidPduType { expected: 1, found: 2 }));
    assert_eq!(u("00000"), ended("authentication_sub_type"));
    assert_eq!(u("000000"), ended("rand2"));
    assert_eq!(u("00001100"), ended("reject_reason"));
    assert_eq!(u("00000101"), ended("res1"));
    assert_eq!(u(&format!("000001{}", "0".repeat(32))), ended("mutual_authentication_flag"));
    assert_eq!(u(&format!("000001{}1", "0".repeat(32))), ended("rand2"));
    assert_eq!(u("000010"), ended("authentication_result"));
    assert_eq!(u("0000101"), ended("mutual_authentication_flag"));
    assert_eq!(u("00001011"), ended("res1"));
    assert_eq!(u("00001010"), ended("obit"));
    assert_eq!(u("000010101"), ended("peek_type34_mbit_and_id mbit"));
    // One more element than this message can have.
    assert_eq!(u("000010101100000"), Some(PduParseErr::InvalidTrailingMbitValue));
    assert_eq!(d("000110"), ended("result"));
    assert_eq!(d("00010101"), ended("res2"));
    assert_eq!(d("000100"), ended("rand1"));
    assert_eq!(d(&format!("000100{}", "0".repeat(90))), ended("rs"));
    assert_eq!(d("00011011"), ended("pbit"));
    assert_eq!(d("0001101110"), ended("address_extension"));
    assert_eq!(d("00011011010"), ended("peek_type34_mbit_and_id id_bits"));
    // Optional elements that are announced and do not come are no error.
    assert_eq!(d("0001101100"), None);
    assert_eq!(u("0000101010"), None);
}
