use flowstation::bitbuffer::BitBuffer;
use flowstation::pdu_parse_error::PduParseErr;
use flowstation::typed_pdu_fields::delimiters;
use flowstation::typed_pdu_fields::typed::{
    parse_type2_generic, parse_type2_struct, parse_type3_generic, parse_type3_struct,
    parse_type4_generic, parse_type4_struct, skip_remaining_type34, write_type2_generic,
    write_type2_struct, write_type34_header_generic, write_type3_generic, write_type3_struct,
    write_type4_struct, write_type4_todo,
};
use flowstation::typed_pdu_fields::{Type3FieldGeneric, Type4FieldGeneric};

/// Elements a parser does not decode - here a type 3 (id 7, 5 bits) and a type 4 (id 3, one
/// 4-bit element: LI = 6-bit count + 4) - are skipped up to the final M-bit 0.
#[test]
fn test_skip_remaining_type34_passes_unknown_elements() {
    let mut buf = BitBuffer::from_bitstr(&format!(
        "1{:04b}{:011b}101101{:04b}{:011b}{:06b}100101",
        7, 5, 3, 10, 1
    ));
    assert_eq!(skip_remaining_type34(true, &mut buf), Ok(()));
    assert_eq!(buf.get_len_remaining(), 1);
    // Without optional elements there is nothing to consume.
    let mut empty = BitBuffer::from_bitstr("1");
    assert_eq!(skip_remaining_type34(false, &mut empty), Ok(()));
    assert_eq!(empty.get_len_remaining(), 1);
    // A length running past the PDU is an error, not a panic.
    let mut short = BitBuffer::from_bitstr(&format!("1{:04b}{:011b}10", 7, 40));
    assert!(skip_remaining_type34(true, &mut short).is_err());
}

/// Build a Type-3 element on the wire: m-bit + 4-bit id + 11-bit length + payload
fn type3_elem(id: u64, len_bits: usize, payload: &str) -> BitBuffer {
    BitBuffer::from_bitstr(&format!("1{:04b}{:011b}{}", id, len_bits, payload))
}

/// Build a Type-4 element on the wire: m-bit + 4-bit id + 11-bit length + 6-bit count + payload
fn type4_elem(id: u64, len_bits: usize, num_elems: usize, payload: &str) -> BitBuffer {
    BitBuffer::from_bitstr(&format!("1{:04b}{:011b}{:06b}{}", id, len_bits, num_elems, payload))
}

#[test]
fn test_type3_length_exceeds_buffer_errors() {
    // 128 payload bits present, wire claims 129: must error, not panic on the skip-forward
    let mut buf = type3_elem(1, 129, &"0".repeat(128));
    assert_eq!(
        parse_type3_generic(true, &mut buf, 1u64),
        Err(PduParseErr::BufferEnded {
            field: Some("parse_type3_generic data")
        })
    );
}

#[test]
fn test_type3_long_length_exceeds_buffer_errors() {
    // Same, but on the >128 bit truncation path: 130 bits present, 160 claimed
    let mut buf = type3_elem(1, 160, &"1".repeat(130));
    assert_eq!(
        parse_type3_generic(true, &mut buf, 1u64),
        Err(PduParseErr::BufferEnded {
            field: Some("parse_type3_generic data")
        })
    );
}

#[test]
fn test_type3_length_exactly_remaining_parses() {
    // Short element, length exactly matches what is present
    let mut buf = type3_elem(1, 8, "10101010");
    assert_eq!(
        parse_type3_generic(true, &mut buf, 1u64),
        Ok(Some(Type3FieldGeneric {
            field_id: 1,
            len: 8,
            data: 0xAA,
        }))
    );
    assert_eq!(buf.get_len_remaining(), 0);

    // Boundary of the two-read path: exactly 128 bits present and claimed
    let mut buf = type3_elem(2, 128, &format!("{}1", "0".repeat(127)));
    assert_eq!(
        parse_type3_generic(true, &mut buf, 2u64),
        Ok(Some(Type3FieldGeneric {
            field_id: 2,
            len: 128,
            data: 1,
        }))
    );
    assert_eq!(buf.get_len_remaining(), 0);
}

#[test]
fn test_type3_over_128_bits_truncates_and_skips() {
    // 160 bits present and claimed: keep the first 128, skip the rest
    let mut buf = type3_elem(3, 160, &"1".repeat(160));
    assert_eq!(
        parse_type3_generic(true, &mut buf, 3u64),
        Ok(Some(Type3FieldGeneric {
            field_id: 3,
            len: 160,
            data: u128::MAX,
        }))
    );
    assert_eq!(buf.get_len_remaining(), 0);
}

#[test]
fn test_type4_length_below_header_errors() {
    // A length under 6 would underflow `len_bits - 6`
    for len_bits in 0..6 {
        let mut buf = type4_elem(2, len_bits, 1, &"0".repeat(64));
        assert_eq!(
            parse_type4_generic(true, &mut buf, 2u64),
            Err(PduParseErr::InconsistentLength {
                expected: 6,
                found: len_bits
            })
        );
    }
}

#[test]
fn test_type4_length_exceeds_buffer_errors() {
    // Claims 80 payload bits, only 40 present: must error, not seek past the window end
    let mut buf = type4_elem(2, 6 + 80, 1, &"1".repeat(40));
    assert_eq!(
        parse_type4_generic(true, &mut buf, 2u64),
        Err(PduParseErr::BufferEnded {
            field: Some("parse_type4_header payload")
        })
    );
}

#[test]
fn test_type4_length_exactly_remaining_parses() {
    let mut buf = type4_elem(2, 6 + 8, 2, "11110000");
    assert_eq!(
        parse_type4_generic(true, &mut buf, 2u64),
        Ok(Some(Type4FieldGeneric {
            field_id: 2,
            len: 8,
            elems: 2,
            data: 0xF0,
        }))
    );
    assert_eq!(buf.get_len_remaining(), 0);

    // Boundary of the truncation path: 80 bits present and claimed
    let mut buf = type4_elem(3, 6 + 80, 1, &"1".repeat(80));
    assert_eq!(
        parse_type4_generic(true, &mut buf, 3u64),
        Ok(Some(Type4FieldGeneric {
            field_id: 3,
            len: 80,
            elems: 1,
            data: u64::MAX,
        }))
    );
    assert_eq!(buf.get_len_remaining(), 0);
}

#[test]
fn bit_buffer_reads_writes_and_seeks() {
    let mut buf = BitBuffer::from_bitstr("1011001");
    assert_eq!(buf.peek_bits(3), Some(0b101));
    assert_eq!(buf.peek_bits_posoffset(1, 3), Some(0b011));
    assert_eq!(buf.read_bits(3), Some(0b101));
    assert_eq!(buf.get_pos(), 3);
    assert_eq!(buf.read_bits(5), None);
    assert_eq!(buf.get_pos(), 3);
    assert_eq!(buf.read_bits(0), Some(0));
    assert_eq!(buf.read_field(5, "five"), Err(PduParseErr::BufferEnded { field: Some("five") }));
    assert_eq!(buf.try_seek_rel(5), None);
    assert_eq!(buf.try_seek_rel(-4), None);
    assert_eq!(buf.try_seek_rel(-3), Some(()));
    assert_eq!(buf.get_pos(), 0);
    buf.seek_rel(7);
    assert_eq!(buf.get_len_remaining(), 0);
    buf.set_raw_pos(2);
    buf.write_bits(0b00, 2);
    assert_eq!(buf.get_raw_pos(), 4);
    assert_eq!(buf.to_bitstr(), "1000001");

    let mut grown = BitBuffer::new_autoexpand(4);
    grown.write_bits(u64::MAX, 64);
    grown.write_bit(0);
    assert_eq!(grown.to_bitstr(), format!("{}0", "1".repeat(64)));
    grown.set_raw_pos(63);
    grown.write_bits(0b010, 3);
    assert_eq!(grown.to_bitstr(), format!("{}010", "1".repeat(63)));
    grown.set_raw_pos(0);
    assert_eq!(grown.read_bits(64), Some(u64::MAX - 1));
}

#[test]
fn delimiters_are_single_bits() {
    let mut buf = BitBuffer::new_autoexpand(3);
    delimiters::write_obit(&mut buf, 1);
    delimiters::write_pbit(&mut buf, 0);
    delimiters::write_mbit(&mut buf, 1);
    assert_eq!(buf.to_bitstr(), "101");
    buf.set_raw_pos(0);
    assert_eq!(delimiters::read_obit(&mut buf), Ok(true));
    assert_eq!(delimiters::read_pbit(&mut buf), Ok(false));
    assert_eq!(delimiters::read_mbit(&mut buf), Ok(true));
    assert_eq!(
        delimiters::read_mbit(&mut buf),
        Err(PduParseErr::BufferEnded { field: Some("mbit") })
    );
    assert_eq!(
        delimiters::read_obit(&mut buf),
        Err(PduParseErr::BufferEnded { field: Some("obit") })
    );
    assert_eq!(
        delimiters::read_pbit(&mut buf),
        Err(PduParseErr::BufferEnded { field: Some("pbit") })
    );
}

#[test]
fn type2_elements_are_read_back() {
    let mut buf = BitBuffer::new_autoexpand(32);
    write_type2_generic(true, &mut buf, Some(0x00AB_CDEF), 24);
    write_type2_generic(true, &mut buf, None, 24);
    write_type2_generic(false, &mut buf, None, 24);
    assert_eq!(buf.to_bitstr(), "11010101111001101111011110");
    buf.set_raw_pos(0);
    assert_eq!(parse_type2_generic(true, &mut buf, 24, "x"), Ok(Some(0x00AB_CDEF)));
    assert_eq!(parse_type2_generic(false, &mut buf, 24, "x"), Ok(None));
    assert_eq!(buf.get_len_remaining(), 1);
    assert_eq!(parse_type2_generic(true, &mut buf, 24, "x"), Ok(None));
    assert_eq!(
        parse_type2_generic(true, &mut buf, 24, "x"),
        Err(PduParseErr::BufferEnded { field: Some("pbit") })
    );

    let mut short = BitBuffer::from_bitstr("1101");
    assert_eq!(
        parse_type2_generic(true, &mut short, 4, "x"),
        Err(PduParseErr::BufferEnded { field: Some("x") })
    );
    assert_eq!(short.get_pos(), 1);
}

#[test]
fn type3_elements_are_read_back() {
    for (len, data) in [
        (0usize, 0u128),
        (5, 0b10110),
        (64, u64::MAX as u128),
        (65, 1u128 << 64),
        (128, u128::MAX - 7),
    ] {
        let field = Some(Type3FieldGeneric { field_id: 9, len, data });
        let mut buf = BitBuffer::new_autoexpand(160);
        assert_eq!(write_type3_generic(true, &mut buf, &field, 9), Ok(()));
        assert_eq!(buf.get_pos(), 16 + len);
        buf.set_raw_pos(0);
        assert_eq!(parse_type3_generic(true, &mut buf, 9), Ok(field));
        assert_eq!(buf.get_len_remaining(), 0);
    }
    // Of contents of up to 64 bits the low half of the number is sent.
    let mut buf = BitBuffer::new_autoexpand(32);
    let wide = Some(Type3FieldGeneric { field_id: 9, len: 4, data: (1u128 << 64) + 5 });
    assert_eq!(write_type3_generic(true, &mut buf, &wide, 9), Ok(()));
    assert_eq!(buf.to_bitstr(), "11001000000001000101");
}

#[test]
fn type3_elements_that_are_not_there() {
    // Another identifier, or none, leaves the cursor where it is.
    let mut other = type3_elem(7, 5, "10110");
    assert_eq!(parse_type3_generic(true, &mut other, 6), Ok(None));
    assert_eq!(parse_type3_generic(false, &mut other, 7), Ok(None));
    assert_eq!(other.get_pos(), 0);
    let mut none = BitBuffer::from_bitstr("0");
    assert_eq!(parse_type3_generic(true, &mut none, 6), Ok(None));
    assert_eq!(none.get_pos(), 0);
    // Each place where the bits can end has its own error.
    let ended = |field| PduParseErr::BufferEnded { field: Some(field) };
    assert_eq!(
        parse_type3_generic(true, &mut BitBuffer::from_bitstr(""), 6),
        Err(ended("peek_type34_mbit_and_id mbit"))
    );
    assert_eq!(
        parse_type3_generic(true, &mut BitBuffer::from_bitstr("1011"), 6),
        Err(ended("peek_type34_mbit_and_id id_bits"))
    );
    let mut no_length = BitBuffer::from_bitstr("10110000");
    assert_eq!(
        parse_type3_generic(true, &mut no_length, 6),
        Err(ended("parse_type3_generic len_bits"))
    );
    assert_eq!(no_length.get_pos(), 5);
    let mut no_count = BitBuffer::from_bitstr(&format!("1{:04b}{:011b}101", 6, 9));
    assert_eq!(
        parse_type4_generic(true, &mut no_count, 6),
        Err(ended("parse_type4_header num_elems"))
    );
    let field = Some(Type3FieldGeneric { field_id: 6, len: 1, data: 1 });
    let mut out = BitBuffer::new_autoexpand(16);
    assert_eq!(
        write_type3_generic(false, &mut out, &field, 6),
        Err(PduParseErr::InvalidValue { field: "write_type3_generic", value: 6 })
    );
    assert_eq!(write_type3_generic(true, &mut out, &None, 6), Ok(()));
    assert_eq!(out.to_bitstr(), "");
    let field = Some(Type4FieldGeneric { field_id: 6, len: 1, elems: 1, data: 1 });
    assert_eq!(
        write_type4_todo(false, &mut out, &field, 6),
        Err(PduParseErr::InvalidValue { field: "write_type4_todo", value: 6 })
    );
    assert_eq!(write_type4_todo(true, &mut out, &None, 6), Ok(()));
}

#[test]
fn skipping_names_the_field_that_is_missing() {
    let skip = |bits: &str| skip_remaining_type34(true, &mut BitBuffer::from_bitstr(bits));
    let ended = |field| Err(PduParseErr::BufferEnded { field: Some(field) });
    assert_eq!(skip(""), ended("trailing_mbit"));
    assert_eq!(skip("101"), ended("type34_element_id"));
    assert_eq!(skip("10111000"), ended("type34_length_indicator"));
    assert_eq!(skip("10111000000001010"), ended("skip_remaining_type34 data"));
    assert_eq!(skip("10111000000000011"), ended("trailing_mbit"));
    assert_eq!(skip("0"), Ok(()));
}

fn write_pair(pair: &(u64, u64), buffer: &mut BitBuffer) -> Result<(), PduParseErr> {
    if pair.0 == 15 {
        return Err(PduParseErr::InvalidValue { field: "pair", value: pair.0 });
    }
    buffer.write_bits(pair.0, 4);
    buffer.write_bits(pair.1, 3);
    Ok(())
}

fn read_pair(buffer: &mut BitBuffer) -> Result<(u64, u64), PduParseErr> {
    let first = buffer.read_field(4, "first")?;
    let second = buffer.read_field(3, "second")?;
    Ok((first, second))
}

#[test]
fn type2_structs_are_read_back() {
    let mut buf = BitBuffer::new_autoexpand(32);
    assert_eq!(write_type2_struct(true, &mut buf, &Some((9, 5)), write_pair), Ok(()));
    assert_eq!(write_type2_struct(true, &mut buf, &None, write_pair), Ok(()));
    assert_eq!(write_type2_struct(false, &mut buf, &None, write_pair), Ok(()));
    assert_eq!(buf.to_bitstr(), "110011010");
    buf.set_raw_pos(0);
    assert_eq!(parse_type2_struct(true, &mut buf, read_pair), Ok(Some((9, 5))));
    assert_eq!(parse_type2_struct(true, &mut buf, read_pair), Ok(None));
    assert_eq!(
        parse_type2_struct(true, &mut buf, read_pair),
        Err(PduParseErr::BufferEnded { field: Some("pbit") })
    );
    assert_eq!(parse_type2_struct(false, &mut buf, read_pair), Ok(None));
    let mut failing = BitBuffer::new_autoexpand(8);
    assert_eq!(
        write_type2_struct(true, &mut failing, &Some((15, 0)), write_pair),
        Err(PduParseErr::InvalidValue { field: "pair", value: 15 })
    );
}

#[test]
fn type3_structs_are_read_back() {
    let mut buf = BitBuffer::new_autoexpand(32);
    assert_eq!(write_type3_struct(true, &mut buf, &Some((9, 5)), 4, write_pair), Ok(()));
    assert_eq!(buf.to_bitstr(), "10100000000001111001101");
    buf.set_raw_pos(0);
    assert_eq!(parse_type3_struct(true, &mut buf, 3, read_pair), Ok(None));
    assert_eq!(parse_type3_struct(true, &mut buf, 4, read_pair), Ok(Some((9, 5))));
    assert_eq!(buf.get_len_remaining(), 0);
    // A length that the contents do not have.
    let mut wrong = type3_elem(4, 8, "10011010");
    assert_eq!(
        parse_type3_struct(true, &mut wrong, 4, read_pair),
        Err(PduParseErr::InconsistentLength { expected: 8, found: 7 })
    );
    assert_eq!(
        write_type3_struct(false, &mut buf, &Some((9, 5)), 4, write_pair),
        Err(PduParseErr::InvalidValue { field: "write_type3_struct", value: 4 })
    );
    assert_eq!(
        parse_type3_struct(true, &mut BitBuffer::from_bitstr("101000000"), 4, read_pair),
        Err(PduParseErr::BufferEnded { field: Some("parse_type3_struct len_bits") })
    );
}

#[test]
fn type4_structs_are_read_back() {
    let pairs = vec![(1, 2), (3, 4), (14, 7)];
    let mut buf = BitBuffer::new_autoexpand(64);
    assert_eq!(write_type4_struct(true, &mut buf, &Some(pairs.clone()), 5, write_pair), Ok(()));
    assert_eq!(
        buf.to_bitstr(),
        format!("1{:04b}{:011b}{:06b}000101000111001110111", 5, 27, 3)
    );
    buf.set_raw_pos(0);
    assert_eq!(parse_type4_struct(true, &mut buf, 5, read_pair), Ok(Some(pairs)));
    assert_eq!(buf.get_len_remaining(), 0);
    // No repetitions at all.
    let mut none = BitBuffer::new_autoexpand(32);
    let empty: Option<Vec<(u64, u64)>> = Some(Vec::new());
    assert_eq!(write_type4_struct(true, &mut none, &empty, 5, write_pair), Ok(()));
    assert_eq!(none.to_bitstr(), format!("1{:04b}{:011b}{:06b}", 5, 6, 0));
    // The second of three fails: what was written stays, without a length.
    let mut failing = BitBuffer::new_autoexpand(64);
    assert_eq!(
        write_type4_struct(true, &mut failing, &Some(vec![(1, 2), (15, 0), (1, 2)]), 5, write_pair),
        Err(PduParseErr::InvalidValue { field: "pair", value: 15 })
    );
    assert_eq!(failing.to_bitstr(), format!("1{:04b}{:017b}0001010", 5, 0));
    // One repetition less than the length says.
    let mut wrong = type4_elem(5, 6 + 14, 1, "00010100011100");
    assert_eq!(
        parse_type4_struct(true, &mut wrong, 5, read_pair),
        Err(PduParseErr::InconsistentLength { expected: 14, found: 7 })
    );
    let mut short = type4_elem(5, 6 + 7, 2, "0001010");
    assert_eq!(
        parse_type4_struct(true, &mut short, 5, read_pair),
        Err(PduParseErr::BufferEnded { field: Some("first") })
    );
    assert_eq!(
        write_type4_struct(false, &mut none, &Some(vec![(1, 2)]), 5, write_pair),
        Err(PduParseErr::InvalidValue { field: "write_type4_struct", value: 5 })
    );
    assert_eq!(parse_type4_struct(false, &mut none, 5, read_pair), Ok(None));
    let mut header = BitBuffer::new_autoexpand(8);
    write_type34_header_generic(&mut header, 5);
    assert_eq!(header.to_bitstr(), "10101");
}
