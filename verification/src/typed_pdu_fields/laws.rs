//! What reading optional elements gives back of what was written.

use vstd::arithmetic::power2::*;
use vstd::prelude::*;

use super::delimiters;
use super::typed;
use super::{Type3FieldGeneric, Type4FieldGeneric};
use crate::bitbuffer;
use crate::bitbuffer::{BitBuffer, BitState};
use crate::bits;
use crate::pdu_parse_error::PduParseErr;

verus! {

/// A type 2 element that is found at the cursor is read as the value that was written.
pub proof fn law_type2_read_back(s: BitState, value: Option<u64>, n: nat, name: &'static str)
    requires
        s.well_formed(),
        value matches Some(v) ==> v < pow2(n),
        s.next_is(typed::type2_bits(value, n)),
    ensures
        typed::type2_generic(true, s, n as int, name) == (
            Ok::<_, PduParseErr>(value),
            s.skip(typed::type2_bits(value, n).len() as int),
        ),
{
    let all = typed::type2_bits(value, n);
    assert(s.bits[s.pos] == s.bits.subrange(s.pos, s.pos + all.len())[0]);
    if let Some(v) = value {
        bits::lemma_value_bits_len(v as nat, n);
        bitbuffer::lemma_next_is_split(s, seq![true], bits::value_bits(v as nat, n));
        bitbuffer::lemma_value_is_next(s.skip(1), v as nat, n);
    }
}

/// A type 3 element that is found at the cursor is recognised by its identifier, and its length
/// indicator gives the length of its contents, which come next.
pub proof fn law_type3_header_read_back(
    s: BitState,
    id: u64,
    contents: Seq<bool>,
    len_name: &'static str,
)
    requires
        s.well_formed(),
        id < 16,
        contents.len() < 2048,
        s.next_is(typed::type3_bits(id, contents)),
    ensures
        typed::type3_header(s, id, len_name) == (
            Ok::<_, PduParseErr>(Some(contents.len() as int)),
            s.skip(16),
        ),
        s.skip(16).next_is(contents),
        typed::type3_bits(id, contents).len() == 16 + contents.len(),
        s.bits[s.pos],
        s.value_at(1, 4) == id,
        s.value_at(5, 11) == contents.len(),
{
    lemma2_to64();
    let head = typed::type34_header_bits(id);
    let ident = bits::value_bits(id as nat, 4);
    let length = bits::value_bits(contents.len(), 11);
    bits::lemma_value_bits_len(id as nat, 4);
    bits::lemma_value_bits_len(contents.len(), 11);
    bitbuffer::lemma_next_is_split(s, head + length, contents);
    bitbuffer::lemma_next_is_split(s, head, length);
    bitbuffer::lemma_next_is_split(s, seq![true], ident);
    assert(s.bits[s.pos] == s.bits.subrange(s.pos, s.pos + 1)[0]);
    bitbuffer::lemma_value_is_next(s.skip(1), id as nat, 4);
    bitbuffer::lemma_value_is_next(s.skip(5), contents.len(), 11);
}

/// What [`typed::write_type3_generic`] writes, [`typed::parse_type3_generic`] reads: the same
/// length, and the number that the contents stand for.
pub proof fn law_type3_read_back(s: BitState, id: u64, field: Type3FieldGeneric)
    requires
        s.well_formed(),
        id < 16,
        field.can_be_sent(),
        s.next_is(typed::type3_bits(id, field.contents())),
    ensures
        typed::type3_generic(true, s, id) == (
            Ok::<_, PduParseErr>(
                Some(
                    Type3FieldGeneric {
                        field_id: id,
                        len: field.len,
                        data: if field.len <= 64 {
                            (field.data % 0x1_0000_0000_0000_0000) as u128
                        } else {
                            field.data
                        },
                    },
                ),
            ),
            s.skip(16 + field.len),
        ),
{
    let n = field.len as nat;
    let contents = field.contents();
    bits::lemma_value_bits_len(field.data as nat, n);
    law_type3_header_read_back(s, id, contents, "parse_type3_generic len_bits");
    lemma2_to64_rest();
    let data = field.data as nat;
    if n <= 64 {
        bits::lemma_value_bits_low(data, n, 64);
        bitbuffer::lemma_value_is_next(s.skip(16), data % pow2(64), n);
    } else {
        bitbuffer::lemma_value_is_next(s.skip(16), data, n);
    }
}

/// Every type 3 element of up to 128 bits that [`typed::parse_type3_generic`] reads can be sent
/// again, and is sent again as the very bits that were read.
pub proof fn law_type3_written_back(s: BitState, id: u64)
    requires
        s.well_formed(),
    ensures
        typed::type3_generic(true, s, id) matches (Ok(Some(field)), t) ==> field.len <= 128 ==> {
            &&& id < 16
            &&& field.field_id == id
            &&& field.can_be_sent()
            &&& s.next_is(typed::type3_bits(id, field.contents()))
            &&& t == s.skip(16 + field.len)
        },
{
    if let (Ok(Some(field)), t) = typed::type3_generic(true, s, id) {
        if field.len <= 128 {
            let u = s.skip(16);
            lemma2_to64();
            lemma_field_bound(s.skip(1), 4);
            lemma_field_bound(s.skip(5), 11);
            assert(field.len == s.value_at(5, 11));
            let n = field.len as nat;
            typed::lemma_value_fits(u, n as int);
            bitbuffer::lemma_next_is_value(s.skip(1), 4);
            bitbuffer::lemma_next_is_value(s.skip(5), 11);
            bitbuffer::lemma_next_is_value(u, n);
            bits::lemma_value_bits_len(field.data as nat, n);
            bits::lemma_value_bits_len(id as nat, 4);
            bits::lemma_value_bits_len(n, 11);
            let head = typed::type34_header_bits(id);
            assert(s.bits.subrange(s.pos, s.pos + 1) =~= seq![true]);
            bitbuffer::lemma_next_is_split(s, seq![true], bits::value_bits(id as nat, 4));
            bitbuffer::lemma_next_is_split(s, head, bits::value_bits(n, 11));
            bitbuffer::lemma_next_is_split(s, head + bits::value_bits(n, 11), field.contents());
        }
    }
}

/// A field's number is below the power of two that its width allows.
proof fn lemma_field_bound(s: BitState, n: int)
    requires
        s.well_formed(),
        0 <= n <= s.remaining(),
    ensures
        s.value(n) < pow2(n as nat),
{
    bits::lemma_bits_value_bound(s.bits.subrange(s.pos, s.pos + n));
}

/// Type 3 and type 4 elements as they are sent one behind the other: of each the identifier and
/// what its length indicator counts.
pub open spec fn elements_bits(elements: Seq<(u64, Seq<bool>)>) -> Seq<bool>
    decreases elements.len(),
{
    if elements.len() == 0 {
        Seq::empty()
    } else {
        typed::type3_bits(elements[0].0, elements[0].1) + elements_bits(elements.drop_first())
    }
}

/// However many elements the parser does not know stand before the closing M-bit, skipping passes
/// all of them and that bit, and stops there.
pub proof fn law_unknown_elements_are_passed(s: BitState, elements: Seq<(u64, Seq<bool>)>)
    requires
        s.well_formed(),
        forall|i: int|
            0 <= i < elements.len() ==> #[trigger] elements[i].0 < 16 && elements[i].1.len() < 2048,
        s.next_is(elements_bits(elements) + seq![false]),
    ensures
        typed::rest_skipped(s) == (
            Ok::<(), PduParseErr>(()),
            s.skip(elements_bits(elements).len() + 1int),
        ),
    decreases elements.len(),
{
    if elements.len() == 0 {
        assert(elements_bits(elements) + seq![false] =~= seq![false]);
        assert(s.bits[s.pos] == s.bits.subrange(s.pos, s.pos + 1)[0]);
    } else {
        let (id, contents) = elements[0];
        let first = typed::type3_bits(id, contents);
        let rest = elements_bits(elements.drop_first()) + seq![false];
        assert(elements_bits(elements) + seq![false] =~= first + rest);
        bitbuffer::lemma_next_is_split(s, first, rest);
        law_type3_header_read_back(s, id, contents, "");
        let n = first.len() as int;
        assert forall|i: int| 0 <= i < elements.drop_first().len() implies #[trigger]
            elements.drop_first()[i].0 < 16 && elements.drop_first()[i].1.len() < 2048 by {
            assert(elements.drop_first()[i] == elements[i + 1]);
        }
        law_unknown_elements_are_passed(s.skip(n), elements.drop_first());
        assert(s.skip(16int + s.value_at(5, 11)) == s.skip(n));
    }
}

/// A type 4 element as it is sent: M-bit, identifier, length, number of repetitions, contents.
/// The length counts the number of repetitions too.
pub open spec fn type4_bits(id: u64, elems: nat, contents: Seq<bool>) -> Seq<bool> {
    typed::type3_bits(id, bits::value_bits(elems, 6) + contents)
}

/// A type 4 element that is found at the cursor is recognised by its identifier, its number of
/// repetitions and the length of its contents are read from it, and the contents come next.
pub proof fn law_type4_header_read_back(s: BitState, id: u64, elems: nat, contents: Seq<bool>)
    requires
        s.well_formed(),
        id < 16,
        elems < 64,
        contents.len() < 2042,
        s.next_is(type4_bits(id, elems, contents)),
    ensures
        typed::type4_header(s, id) == (
            Ok::<_, PduParseErr>(Some((elems as usize, contents.len() as usize))),
            s.skip(22),
        ),
        s.skip(22).next_is(contents),
        type4_bits(id, elems, contents).len() == 22 + contents.len(),
{
    lemma2_to64();
    let count = bits::value_bits(elems, 6);
    bits::lemma_value_bits_len(elems, 6);
    law_type3_header_read_back(s, id, count + contents, "parse_type4_header len_bits");
    bitbuffer::lemma_next_is_split(s.skip(16), count, contents);
    bitbuffer::lemma_value_is_next(s.skip(16), elems, 6);
}

/// A type 4 element is read as its identifier, its number of repetitions, the length of its
/// contents, and the number that their first 64 bits stand for.
pub proof fn law_type4_read_back(s: BitState, id: u64, elems: nat, contents: Seq<bool>)
    requires
        s.well_formed(),
        id < 16,
        elems < 64,
        contents.len() < 2042,
        s.next_is(type4_bits(id, elems, contents)),
    ensures
        typed::type4_generic(true, s, id) == (
            Ok::<_, PduParseErr>(
                Some(
                    Type4FieldGeneric {
                        field_id: id,
                        len: contents.len() as usize,
                        elems: elems as usize,
                        data: bits::bits_value(
                            if contents.len() > 64 {
                                contents.take(64)
                            } else {
                                contents
                            },
                        ) as u64,
                    },
                ),
            ),
            s.skip(22int + contents.len()),
        ),
{
    law_type4_header_read_back(s, id, elems, contents);
    let t = s.skip(22);
    if contents.len() > 64 {
        assert(t.bits.subrange(t.pos, t.pos + 64) =~= t.bits.subrange(
            t.pos,
            t.pos + contents.len(),
        ).take(64));
    }
}

/// Of a type 3 element of any length, the number that its first 128 bits stand for is kept, and
/// the cursor passes all of it.
pub proof fn law_long_type3_read_back(s: BitState, id: u64, contents: Seq<bool>)
    requires
        s.well_formed(),
        id < 16,
        contents.len() < 2048,
        s.next_is(typed::type3_bits(id, contents)),
    ensures
        typed::type3_generic(true, s, id) == (
            Ok::<_, PduParseErr>(
                Some(
                    Type3FieldGeneric {
                        field_id: id,
                        len: contents.len() as usize,
                        data: bits::bits_value(
                            if contents.len() > 128 {
                                contents.take(128)
                            } else {
                                contents
                            },
                        ) as u128,
                    },
                ),
            ),
            s.skip(16int + contents.len()),
        ),
{
    law_type3_header_read_back(s, id, contents, "parse_type3_generic len_bits");
    let t = s.skip(16);
    if contents.len() > 128 {
        assert(t.bits.subrange(t.pos, t.pos + 128) =~= t.bits.subrange(
            t.pos,
            t.pos + contents.len(),
        ).take(128));
    }
}

/// A writer that writes the contents of a type 3 element, and nothing else, makes
/// [`typed::write_type3_struct`] write the element as it is sent.
pub proof fn law_type3_struct_is_sent(s: BitState, id: u64, contents: Seq<bool>)
    requires
        s.well_formed(),
    ensures
        ({
            let t = typed::type3_opened(s, id);
            typed::type3_closed(t.write(contents), t.pos) == s.write(typed::type3_bits(id, contents))
        }),
{
    let t = typed::type3_opened(s, id);
    let head = typed::type34_header_bits(id);
    let length = bits::value_bits(contents.len(), 11);
    bits::lemma_value_bits_len(id as nat, 4);
    bits::lemma_value_bits_len(0, 11);
    bits::lemma_value_bits_len(contents.len(), 11);
    assert(typed::type3_closed(t.write(contents), t.pos) =~= s.write(head + length + contents));
}

/// Writers that write the repetitions of a type 4 element, and nothing else, make
/// [`typed::write_type4_struct`] write the element as it is sent.
pub proof fn law_type4_struct_is_sent(s: BitState, id: u64, n: nat, contents: Seq<bool>)
    requires
        s.well_formed(),
    ensures
        ({
            let t = typed::type4_opened(s, id);
            typed::type4_closed(t.write(contents), t.pos, n) == s.write(
                type4_bits(id, n, contents),
            )
        }),
{
    let t = typed::type4_opened(s, id);
    let head = typed::type34_header_bits(id);
    let length = bits::value_bits((contents.len() + 6) as nat, 11);
    let count = bits::value_bits(n, 6);
    bits::lemma_value_bits_len(id as nat, 4);
    bits::lemma_value_bits_len(0, 17);
    bits::lemma_value_bits_len((contents.len() + 6) as nat, 11);
    bits::lemma_value_bits_len(n, 6);
    assert(typed::type4_closed(t.write(contents), t.pos, n) =~= s.write(
        head + length + (count + contents),
    ));
}

/// What [`typed::write_type3_struct`] writes, [`typed::parse_type3_struct`] reads: the parser of
/// the contents starts where their writer started, on what it wrote, and has the right length if
/// it stops where the writer stopped.
pub proof fn law_type3_struct_read_back(
    s: BitState,
    id: u64,
    contents: Seq<bool>,
    len_name: &'static str,
)
    requires
        s.well_formed(),
        id < 16,
        contents.len() < 2048,
        s.has_room(16int + contents.len()),
    ensures
        ({
            let start = typed::type3_opened(s, id).pos;
            let written = typed::type3_closed(typed::type3_opened(s, id).write(contents), start);
            &&& typed::type3_header(written.at(s.pos), id, len_name) == (
                Ok::<_, PduParseErr>(Some(written.pos - start)),
                written.at(start),
            )
            &&& written.at(start).next_is(contents)
            &&& written.pos == start + contents.len()
        }),
{
    let sent = typed::type3_bits(id, contents);
    law_type3_struct_is_sent(s, id, contents);
    bits::lemma_value_bits_len(id as nat, 4);
    bits::lemma_value_bits_len(0, 11);
    bits::lemma_value_bits_len(contents.len(), 11);
    bitbuffer::lemma_room_left(s, sent, 0);
    bitbuffer::lemma_written_is_next(s, sent);
    law_type3_header_read_back(s.write(sent).at(s.pos), id, contents, len_name);
}

/// What [`typed::write_type4_struct`] writes, [`typed::parse_type4_struct`] reads: as many
/// repetitions, whose parsers start where their writers started, on what they wrote, and have the
/// right length if they stop where the writers stopped.
pub proof fn law_type4_struct_read_back(s: BitState, id: u64, n: nat, contents: Seq<bool>)
    requires
        s.well_formed(),
        id < 16,
        n < 64,
        contents.len() < 2042,
        s.has_room(22int + contents.len()),
    ensures
        ({
            let start = typed::type4_opened(s, id).pos;
            let written = typed::type4_closed(
                typed::type4_opened(s, id).write(contents),
                start,
                n,
            );
            &&& typed::type4_header(written.at(s.pos), id) == (
                Ok::<_, PduParseErr>(Some((n as usize, (written.pos - start) as usize))),
                written.at(start),
            )
            &&& written.at(start).next_is(contents)
            &&& written.pos == start + contents.len()
        }),
{
    let sent = type4_bits(id, n, contents);
    law_type4_struct_is_sent(s, id, n, contents);
    bits::lemma_value_bits_len(id as nat, 4);
    bits::lemma_value_bits_len(0, 17);
    bits::lemma_value_bits_len(n, 6);
    bits::lemma_value_bits_len((contents.len() + 6) as nat, 11);
    bitbuffer::lemma_room_left(s, sent, 0);
    bitbuffer::lemma_written_is_next(s, sent);
    law_type4_header_read_back(s.write(sent).at(s.pos), id, n, contents);
}

/// Whatever the bits say, no reader moves the cursor back or out of the buffer, and none changes
/// a bit. A type 3 or type 4 element that is not there leaves the cursor where it is.
pub proof fn law_readers_stay_within(s: BitState, obit: bool, n: int, name: &'static str, id: u64)
    requires
        s.well_formed(),
        n >= 0,
    ensures
        stays_within(s, typed::type2_generic(obit, s, n, name).1),
        stays_within(s, typed::type3_generic(obit, s, id).1),
        stays_within(s, typed::type4_generic(obit, s, id).1),
        stays_within(s, typed::rest_skipped(s).1),
        typed::type3_generic(obit, s, id).0 == Ok::<_, PduParseErr>(None::<Type3FieldGeneric>)
            ==> typed::type3_generic(obit, s, id).1 == s,
        typed::type4_generic(obit, s, id).0 == Ok::<_, PduParseErr>(None::<Type4FieldGeneric>)
            ==> typed::type4_generic(obit, s, id).1 == s,
{
    lemma_skipping_stays_within(s);
}

/// `after` is `before` with the cursor no further back, and within the buffer.
pub open spec fn stays_within(before: BitState, after: BitState) -> bool {
    &&& after.bits == before.bits
    &&& after.autoexpand == before.autoexpand
    &&& before.pos <= after.pos <= before.bits.len()
}

proof fn lemma_skipping_stays_within(s: BitState)
    requires
        s.well_formed(),
    ensures
        stays_within(s, typed::rest_skipped(s).1),
    decreases s.remaining(),
{
    if s.remaining() >= 16 && s.bits[s.pos] && s.value_at(5, 11) <= s.skip(16).remaining() {
        lemma_skipping_stays_within(s.skip(16int + s.value_at(5, 11)));
    }
}

/// A delimiter is one bit, read and written at the cursor. One that is not there is an error that
/// names it.
pub proof fn law_delimiters_are_single_bits()
    ensures
        forall|b: &mut BitBuffer, r: Result<bool, PduParseErr>|
            b@.well_formed() && #[trigger] call_ensures(delimiters::read_obit, (b,), r)
                ==> is_next_bit(b@, final(b)@, r, "obit"),
        forall|b: &mut BitBuffer, r: Result<bool, PduParseErr>|
            b@.well_formed() && #[trigger] call_ensures(delimiters::read_pbit, (b,), r)
                ==> is_next_bit(b@, final(b)@, r, "pbit"),
        forall|b: &mut BitBuffer, r: Result<bool, PduParseErr>|
            b@.well_formed() && #[trigger] call_ensures(delimiters::read_mbit, (b,), r)
                ==> is_next_bit(b@, final(b)@, r, "mbit"),
        forall|b: &mut BitBuffer, val: u8, r: ()|
            b@.well_formed() && #[trigger] call_ensures(delimiters::write_obit, (b, val), r) ==> {
                &&& final(b)@.bits[b@.pos] == (val == 1)
                &&& bitbuffer::wrote(b@, final(b)@, 1)
            },
        forall|b: &mut BitBuffer, val: u8, r: ()|
            b@.well_formed() && #[trigger] call_ensures(delimiters::write_pbit, (b, val), r) ==> {
                &&& final(b)@.bits[b@.pos] == (val == 1)
                &&& bitbuffer::wrote(b@, final(b)@, 1)
            },
        forall|b: &mut BitBuffer, val: u8, r: ()|
            b@.well_formed() && #[trigger] call_ensures(delimiters::write_mbit, (b, val), r) ==> {
                &&& final(b)@.bits[b@.pos] == (val == 1)
                &&& bitbuffer::wrote(b@, final(b)@, 1)
            },
{
}

/// Reading one bit gave `r` and led from `before` to `after`.
pub open spec fn is_next_bit(
    before: BitState,
    after: BitState,
    r: Result<bool, PduParseErr>,
    name: &'static str,
) -> bool {
    if before.pos < before.bits.len() {
        r == Ok::<bool, PduParseErr>(before.bits[before.pos]) && bitbuffer::moved(
            before,
            after,
            before.pos + 1,
        )
    } else {
        r == Err::<bool, _>(PduParseErr::BufferEnded { field: Some(name) }) && bitbuffer::moved(
            before,
            after,
            before.pos,
        )
    }
}

/// A type 2 element is a P-bit and, where that is set, the digits of the value.
pub proof fn law_type2_layout(value: Option<u64>, n: nat)
    ensures
        ({
            let sent = typed::type2_bits(value, n);
            &&& sent.len() > 0
            &&& sent[0] == (value is Some)
            &&& value is None ==> sent.len() == 1
            &&& value matches Some(v) ==> sent.len() == 1 + n && bits::holds(
                sent,
                1,
                n as int,
                v as nat,
            )
        }),
{
    if let Some(v) = value {
        let sent = typed::type2_bits(value, n);
        bits::lemma_value_bits_len(v as nat, n);
        assert(sent.subrange(1, 1int + n) =~= bits::value_bits(v as nat, n));
        bits::lemma_holds(sent, 1, n as int, v as nat);
    }
}

/// A type 3 element is an M-bit of 1, four digits of the identifier, eleven digits of the length of
/// the contents, and the contents.
pub proof fn law_type3_layout(id: u64, contents: Seq<bool>)
    ensures
        ({
            let sent = typed::type3_bits(id, contents);
            &&& sent.len() == 16 + contents.len()
            &&& sent[0]
            &&& bits::holds(sent, 1, 4, id as nat)
            &&& bits::holds(sent, 5, 11, contents.len())
            &&& sent.skip(16) == contents
        }),
{
    let sent = typed::type3_bits(id, contents);
    bits::lemma_value_bits_len(id as nat, 4);
    bits::lemma_value_bits_len(contents.len(), 11);
    assert(sent.subrange(1, 1int + 4) =~= bits::value_bits(id as nat, 4));
    assert(sent.subrange(5, 5int + 11) =~= bits::value_bits(contents.len(), 11));
    assert(sent.skip(16) =~= contents);
    bits::lemma_holds(sent, 1, 4, id as nat);
    bits::lemma_holds(sent, 5, 11, contents.len());
}

/// The contents of a generic type 3 element are the digits of its data, as many as it says.
pub proof fn law_type3_contents(field: Type3FieldGeneric)
    ensures
        field.contents().len() == field.len,
        bits::holds(field.contents(), 0, field.len as int, field.data as nat),
        field.can_be_sent() <==> {
            ||| field.len <= 64 && field.data % 0x1_0000_0000_0000_0000 < pow2(field.len as nat)
            ||| 64 < field.len && field.len <= 128 && field.data < pow2(field.len as nat)
        },
{
    bits::lemma_value_bits_len(field.data as nat, field.len as nat);
    assert(field.contents().subrange(0, 0 + field.len) =~= field.contents());
    bits::lemma_holds(field.contents(), 0, field.len as int, field.data as nat);
}

/// A type 4 element is an M-bit of 1, four digits of the identifier, eleven digits of a length that
/// counts all that follows, six digits of the number of repetitions, and the contents.
pub proof fn law_type4_layout(id: u64, elems: nat, contents: Seq<bool>)
    ensures
        ({
            let sent = type4_bits(id, elems, contents);
            &&& sent.len() == 22 + contents.len()
            &&& sent[0]
            &&& bits::holds(sent, 1, 4, id as nat)
            &&& bits::holds(sent, 5, 11, 6 + contents.len())
            &&& bits::holds(sent, 16, 6, elems)
            &&& sent.skip(22) == contents
        }),
{
    let sent = type4_bits(id, elems, contents);
    let rest = bits::value_bits(elems, 6) + contents;
    bits::lemma_value_bits_len(elems, 6);
    law_type3_layout(id, rest);
    assert(sent.subrange(16, 16int + 6) =~= sent.skip(16).subrange(0, 6));
    assert(rest.subrange(0, 6) =~= bits::value_bits(elems, 6));
    bits::lemma_holds(sent, 16, 6, elems);
    assert(sent.skip(22) =~= sent.skip(16).skip(6));
    assert(rest.skip(6) =~= contents);
}

/// What is written as a type 2 element stands at the cursor: a P-bit and, where that is set, the
/// digits of the value. Without an O-bit nothing is written.
pub proof fn law_type2_is_written_at_the_cursor(obit: bool, value: Option<u64>, len: usize)
    ensures
        forall|b: &mut BitBuffer, r: ()|
            b@.well_formed() && #[trigger] call_ensures(
                typed::write_type2_generic,
                (obit, b, value, len),
                r,
            ) ==> {
                &&& !obit ==> final(b)@ == b@
                &&& obit ==> final(b)@.bits[b@.pos] == (value is Some)
                &&& obit && value is None ==> bitbuffer::wrote(b@, final(b)@, 1)
                &&& obit ==> (value matches Some(v) ==> {
                    &&& bits::holds(final(b)@.bits, b@.pos + 1, len as int, v as nat)
                    &&& bitbuffer::wrote(b@, final(b)@, 1 + len)
                })
            },
{
    assert forall|b: &mut BitBuffer, r: ()|
        b@.well_formed() && #[trigger] call_ensures(
            typed::write_type2_generic,
            (obit, b, value, len),
            r,
        ) && obit implies {
        &&& final(b)@.bits[b@.pos] == (value is Some)
        &&& value is None ==> bitbuffer::wrote(b@, final(b)@, 1)
        &&& value matches Some(v) ==> {
            &&& bits::holds(final(b)@.bits, b@.pos + 1, len as int, v as nat)
            &&& bitbuffer::wrote(b@, final(b)@, 1 + len)
        }
    } by {
        let new = typed::type2_bits(value, len as nat);
        law_type2_layout(value, len as nat);
        bitbuffer::lemma_write_is_wrote(b@, new);
        assert(final(b)@ == b@.write(new));
        lemma_written_field(b@, new, 0, 0, 0);
        assert(final(b)@.bits[b@.pos] == final(b)@.bits.subrange(b@.pos, b@.pos + new.len())[0]);
        if let Some(v) = value {
            lemma_written_field(b@, new, 1, len as int, v as nat);
        }
    }
}

/// A field of what is written at the cursor is a field of the buffer.
pub proof fn lemma_written_field(s: BitState, new: Seq<bool>, from: int, n: int, value: nat)
    requires
        s.well_formed(),
        0 <= from,
        0 <= n,
        from + n <= new.len(),
        bits::holds(new, from, n, value) || n == 0,
    ensures
        bits::holds(s.write(new).bits, s.pos + from, n, value),
{
    let t = s.write(new);
    bitbuffer::lemma_write_is_wrote(s, new);
    if n > 0 {
        bits::lemma_holds(new, from, n, value);
        assert(t.bits.subrange(s.pos + from, s.pos + from + n) =~= t.bits.subrange(
            s.pos,
            s.pos + new.len(),
        ).subrange(from, from + n));
        bits::lemma_holds(t.bits, s.pos + from, n, value);
    }
}

/// What is written as a type 3 element stands at the cursor: an M-bit of 1, the identifier in four
/// digits, the length in eleven, and the data in as many as the length says. A missing element is
/// not written at all, and one without an O-bit is refused.
pub proof fn law_type3_is_written_at_the_cursor(
    obit: bool,
    value: Option<Type3FieldGeneric>,
    id: u64,
)
    ensures
        forall|b: &mut BitBuffer, r: Result<(), PduParseErr>|
            b@.well_formed() && #[trigger] call_ensures(
                typed::write_type3_generic,
                (obit, b, &value, id),
                r,
            ) ==> {
                &&& value is None ==> r is Ok && final(b)@ == b@
                &&& value is Some && !obit ==> {
                    &&& r == Err::<(), _>(
                        PduParseErr::InvalidValue { field: "write_type3_generic", value: id },
                    )
                    &&& final(b)@ == b@
                }
                &&& value matches Some(field) ==> (obit ==> {
                    &&& r is Ok
                    &&& final(b)@.bits[b@.pos]
                    &&& bits::holds(final(b)@.bits, b@.pos + 1, 4, id as nat)
                    &&& bits::holds(final(b)@.bits, b@.pos + 5, 11, field.len as nat)
                    &&& bits::holds(
                        final(b)@.bits,
                        b@.pos + 16,
                        field.len as int,
                        field.data as nat,
                    )
                    &&& bitbuffer::wrote(b@, final(b)@, 16 + field.len)
                })
            },
{
    assert forall|b: &mut BitBuffer, r: Result<(), PduParseErr>|
        b@.well_formed() && #[trigger] call_ensures(
            typed::write_type3_generic,
            (obit, b, &value, id),
            r,
        ) && obit implies {
        value matches Some(field) ==> {
            &&& r is Ok
            &&& final(b)@.bits[b@.pos]
            &&& bits::holds(final(b)@.bits, b@.pos + 1, 4, id as nat)
            &&& bits::holds(final(b)@.bits, b@.pos + 5, 11, field.len as nat)
            &&& bits::holds(final(b)@.bits, b@.pos + 16, field.len as int, field.data as nat)
            &&& bitbuffer::wrote(b@, final(b)@, 16 + field.len)
        }
    } by {
        if let Some(field) = value {
            let new = typed::type3_bits(id, field.contents());
            assert(final(b)@ == b@.write(new));
            law_type3_contents(field);
            law_type3_layout(id, field.contents());
            bitbuffer::lemma_write_is_wrote(b@, new);
            assert(final(b)@.bits[b@.pos] == final(b)@.bits.subrange(b@.pos, b@.pos + new.len())[0]);
            lemma_written_field(b@, new, 1, 4, id as nat);
            lemma_written_field(b@, new, 5, 11, field.len as nat);
            assert(new.subrange(16, 16 + field.len) =~= new.skip(16));
            assert(field.contents().subrange(0, 0 + field.len) =~= field.contents());
            bits::lemma_holds(field.contents(), 0, field.len as int, field.data as nat);
            bits::lemma_holds(new, 16, field.len as int, field.data as nat);
            lemma_written_field(b@, new, 16, field.len as int, field.data as nat);
        }
    }
}

/// The start of a type 3 or type 4 element that is written is an M-bit of 1 and the identifier in
/// four digits.
pub proof fn law_headers_are_written_at_the_cursor(id: u64)
    ensures
        forall|b: &mut BitBuffer, r: ()|
            b@.well_formed() && #[trigger] call_ensures(
                typed::write_type34_header_generic,
                (b, id),
                r,
            ) ==> {
                &&& final(b)@.bits[b@.pos]
                &&& bits::holds(final(b)@.bits, b@.pos + 1, 4, id as nat)
                &&& bitbuffer::wrote(b@, final(b)@, 5)
            },
{
    assert forall|b: &mut BitBuffer, r: ()|
        b@.well_formed() && #[trigger] call_ensures(
            typed::write_type34_header_generic,
            (b, id),
            r,
        ) implies {
        &&& final(b)@.bits[b@.pos]
        &&& bits::holds(final(b)@.bits, b@.pos + 1, 4, id as nat)
        &&& bitbuffer::wrote(b@, final(b)@, 5)
    } by {
        let new = typed::type34_header_bits(id);
        bits::lemma_value_bits_len(id as nat, 4);
        bitbuffer::lemma_write_is_wrote(b@, new);
        assert(final(b)@ == b@.write(new));
        assert(final(b)@.bits[b@.pos] == final(b)@.bits.subrange(b@.pos, b@.pos + new.len())[0]);
        assert(new.subrange(1, 1int + 4) =~= bits::value_bits(id as nat, 4));
        bits::lemma_holds(new, 1, 4, id as nat);
        lemma_written_field(b@, new, 1, 4, id as nat);
    }
}

/// A type 2 element is read from the cursor on: a P-bit and, where that is set, a value of the given
/// width. Without an O-bit nothing is read. What ends too early is an error that names the part
/// that is missing.
pub proof fn law_type2_is_read_at_the_cursor(obit: bool, n: usize, name: &'static str)
    ensures
        forall|b: &mut BitBuffer, r: Result<Option<u64>, PduParseErr>|
            b@.well_formed() && #[trigger] call_ensures(
                typed::parse_type2_generic,
                (obit, b, n, name),
                r,
            ) && n <= 64 ==> {
                let left = b@.bits.len() - b@.pos;
                &&& !obit ==> r == Ok::<_, PduParseErr>(None::<u64>) && bitbuffer::moved(
                    b@,
                    final(b)@,
                    b@.pos,
                )
                &&& obit && left == 0 ==> r == Err::<Option<u64>, _>(
                    PduParseErr::BufferEnded { field: Some("pbit") },
                ) && bitbuffer::moved(b@, final(b)@, b@.pos)
                &&& obit && left > 0 && !b@.bits[b@.pos] ==> r == Ok::<_, PduParseErr>(None::<u64>)
                    && bitbuffer::moved(b@, final(b)@, b@.pos + 1)
                &&& obit && 0 < left <= n && b@.bits[b@.pos] ==> r == Err::<Option<u64>, _>(
                    PduParseErr::BufferEnded { field: Some(name) },
                ) && bitbuffer::moved(b@, final(b)@, b@.pos + 1)
                &&& obit && left > n && b@.bits[b@.pos] ==> {
                    &&& r matches Ok(Some(v))
                    &&& v < pow2(n as nat)
                    &&& bits::holds(b@.bits, b@.pos + 1, n as int, v as nat)
                    &&& bitbuffer::moved(b@, final(b)@, b@.pos + 1 + n)
                }
            },
{
    assert forall|s: BitState, k: int|
        s.well_formed() && 0 <= k && s.pos + 1 + k <= s.bits.len() && k <= 64 implies {
        let v = #[trigger] s.skip(1).value(k);
        &&& v < pow2(k as nat)
        &&& v <= u64::MAX
        &&& bits::holds(s.bits, s.pos + 1, k, v)
    } by {
        typed::lemma_value_fits(s.skip(1), k);
        bits::lemma_field_holds_its_number(s.bits, s.pos + 1, k);
    }
}

/// Whether the type 3 or type 4 element `id` starts at the cursor of `s`: an M-bit of 1 and four
/// digits of the identifier.
pub open spec fn starts_here(s: BitState, id: u64) -> bool {
    &&& s.pos + 5 <= s.bits.len()
    &&& s.bits[s.pos]
    &&& id < 16
    &&& bits::holds(s.bits, s.pos + 1, 4, id as nat)
}

/// The number that the eleven bits behind the start of an element hold.
pub open spec fn length_here(s: BitState, len: nat) -> bool {
    len < 2048 && bits::holds(s.bits, s.pos + 5, 11, len)
}

/// The header of a type 3 element is read from the cursor on. It is there where an M-bit of 1 and
/// its identifier are; the eleven bits behind them are the length of the contents. Where another
/// element or none is there, nothing is read. What ends too early is an error.
pub proof fn law_type3_header_is_read_at_the_cursor(s: BitState, id: u64, name: &'static str, len: nat)
    requires
        s.well_formed(),
    ensures
        ({
            let (header, t) = typed::type3_header(s, id, name);
            let left = s.bits.len() - s.pos;
            &&& left == 0 ==> header == Err::<Option<int>, _>(
                PduParseErr::BufferEnded { field: Some("peek_type34_mbit_and_id mbit") },
            ) && t == s
            &&& left > 0 && !s.bits[s.pos] ==> header == Ok::<_, PduParseErr>(None::<int>) && t == s
            &&& 0 < left < 5 && s.bits[s.pos] ==> header == Err::<Option<int>, _>(
                PduParseErr::BufferEnded { field: Some("peek_type34_mbit_and_id id_bits") },
            ) && t == s
            &&& left >= 5 && s.bits[s.pos] && !starts_here(s, id) ==> header
                == Ok::<_, PduParseErr>(None::<int>) && t == s
            &&& starts_here(s, id) && left < 16 ==> header == Err::<Option<int>, _>(
                PduParseErr::BufferEnded { field: Some(name) },
            ) && bitbuffer::moved(s, t, s.pos + 5)
            &&& starts_here(s, id) && left >= 16 ==> {
                &&& header matches Ok(Some(found))
                &&& 0 <= found < 2048
                &&& length_here(s, len) <==> found == len
                &&& bitbuffer::moved(s, t, s.pos + 16)
            }
        }),
{
    lemma2_to64();
    if s.bits.len() - s.pos >= 5 {
        lemma_number_here(s, s.pos + 1, 4, id as nat);
    }
    if s.bits.len() - s.pos >= 16 {
        lemma_number_here(s, s.pos + 5, 11, len);
    }
}

/// A field holds a number that fits it exactly where it is the field's number.
proof fn lemma_number_here(s: BitState, from: int, n: int, value: nat)
    requires
        0 <= from,
        0 <= n,
        from + n <= s.bits.len(),
    ensures
        value < pow2(n as nat) && bits::holds(s.bits, from, n, value) <==> bits::bits_value(
            s.bits.subrange(from, from + n),
        ) == value,
        bits::bits_value(s.bits.subrange(from, from + n)) < pow2(n as nat),
{
    bits::lemma_field_holds_its_number(s.bits, from, n);
    if value < pow2(n as nat) && bits::holds(s.bits, from, n, value) {
        bits::law_a_field_holds_one_number(s.bits, from, n, value, value);
    }
}

/// A type 3 element is read from the cursor on: its header, and of its contents the number that the
/// first 128 bits hold. The cursor then stands behind all of its contents. One whose length points
/// out of the buffer is an error; one that is not there is none.
pub proof fn law_type3_is_read_at_the_cursor(obit: bool, id: u64, len: nat)
    ensures
        forall|b: &mut BitBuffer, r: Result<Option<Type3FieldGeneric>, PduParseErr>|
            b@.well_formed() && #[trigger] call_ensures(
                typed::parse_type3_generic,
                (obit, b, id),
                r,
            ) ==> {
                let s = b@;
                let left = s.bits.len() - s.pos;
                let none = Ok::<_, PduParseErr>(None::<Type3FieldGeneric>);
                &&& !obit ==> r == none && bitbuffer::moved(s, final(b)@, s.pos)
                &&& obit && left == 0 ==> r == Err::<Option<Type3FieldGeneric>, _>(
                    PduParseErr::BufferEnded { field: Some("peek_type34_mbit_and_id mbit") },
                ) && bitbuffer::moved(s, final(b)@, s.pos)
                &&& obit && left > 0 && !s.bits[s.pos] ==> r == none && bitbuffer::moved(
                    s,
                    final(b)@,
                    s.pos,
                )
                &&& obit && 0 < left < 5 && s.bits[s.pos] ==> r == Err::<
                    Option<Type3FieldGeneric>,
                    _,
                >(PduParseErr::BufferEnded { field: Some("peek_type34_mbit_and_id id_bits") })
                    && bitbuffer::moved(s, final(b)@, s.pos)
                &&& obit && left >= 5 && s.bits[s.pos] && !starts_here(s, id) ==> r == none
                    && bitbuffer::moved(s, final(b)@, s.pos)
                &&& obit && starts_here(s, id) && left < 16 ==> r == Err::<
                    Option<Type3FieldGeneric>,
                    _,
                >(PduParseErr::BufferEnded { field: Some("parse_type3_generic len_bits") })
                    && bitbuffer::moved(s, final(b)@, s.pos + 5)
                &&& obit && starts_here(s, id) && left >= 16 && length_here(s, len) && left < 16
                    + len ==> r == Err::<Option<Type3FieldGeneric>, _>(
                    PduParseErr::BufferEnded { field: Some("parse_type3_generic data") },
                ) && bitbuffer::moved(s, final(b)@, s.pos + 16)
                &&& obit && starts_here(s, id) && left >= 16 && length_here(s, len) && left >= 16
                    + len ==> {
                    let kept = if len < 128 { len as int } else { 128 };
                    &&& r matches Ok(Some(field))
                    &&& field.field_id == id
                    &&& field.len == len
                    &&& field.data < pow2(kept as nat) || kept == 128
                    &&& bits::holds(s.bits, s.pos + 16, kept, field.data as nat)
                    &&& bitbuffer::moved(s, final(b)@, s.pos + 16 + len)
                }
            },
{
    assert forall|b: &mut BitBuffer, r: Result<Option<Type3FieldGeneric>, PduParseErr>|
        b@.well_formed() && #[trigger] call_ensures(
            typed::parse_type3_generic,
            (obit, b, id),
            r,
        ) && obit && starts_here(b@, id) && b@.bits.len() - b@.pos >= 16 && length_here(b@, len)
            && b@.bits.len() - b@.pos >= 16 + len implies {
        let kept = if len < 128 { len as int } else { 128 };
        &&& r matches Ok(Some(field))
        &&& field.field_id == id
        &&& field.len == len
        &&& field.data < pow2(kept as nat) || kept == 128
        &&& bits::holds(b@.bits, b@.pos + 16, kept, field.data as nat)
        &&& bitbuffer::moved(b@, final(b)@, b@.pos + 16 + len)
    } by {
        let kept = if len < 128 { len as int } else { 128 };
        law_type3_header_is_read_at_the_cursor(b@, id, "parse_type3_generic len_bits", len);
        typed::lemma_value_fits(b@.skip(16), kept);
        bits::lemma_field_holds_its_number(b@.bits, b@.pos + 16, kept);
    }
    assert forall|s: BitState| #[trigger] s.well_formed() implies {
        let (header, t) = typed::type3_header(s, id, "parse_type3_generic len_bits");
        let left = s.bits.len() - s.pos;
        &&& left == 0 ==> header == Err::<Option<int>, _>(
            PduParseErr::BufferEnded { field: Some("peek_type34_mbit_and_id mbit") },
        ) && t == s
        &&& left > 0 && !s.bits[s.pos] ==> header == Ok::<_, PduParseErr>(None::<int>) && t == s
        &&& 0 < left < 5 && s.bits[s.pos] ==> header == Err::<Option<int>, _>(
            PduParseErr::BufferEnded { field: Some("peek_type34_mbit_and_id id_bits") },
        ) && t == s
        &&& left >= 5 && s.bits[s.pos] && !starts_here(s, id) ==> header == Ok::<_, PduParseErr>(
            None::<int>,
        ) && t == s
        &&& starts_here(s, id) && left < 16 ==> header == Err::<Option<int>, _>(
            PduParseErr::BufferEnded { field: Some("parse_type3_generic len_bits") },
        ) && bitbuffer::moved(s, t, s.pos + 5)
        &&& starts_here(s, id) && left >= 16 ==> {
            &&& header matches Ok(Some(found))
            &&& length_here(s, len) <==> found == len
            &&& bitbuffer::moved(s, t, s.pos + 16)
        }
    } by {
        law_type3_header_is_read_at_the_cursor(s, id, "parse_type3_generic len_bits", len);
    }
}

/// The header of a type 4 element is read from the cursor on: that of a type 3 element, whose length
/// counts six bits more, and in those six bits the number of repetitions. What it hands out is that
/// number and the length of the contents alone. A length below six, or one that points out of the
/// buffer, is an error.
pub proof fn law_type4_header_is_read_at_the_cursor(s: BitState, id: u64, len: nat, elems: nat)
    requires
        s.well_formed(),
    ensures
        ({
            let (header, t) = typed::type4_header(s, id);
            let left = s.bits.len() - s.pos;
            &&& left == 0 ==> header == Err::<Option<(usize, usize)>, _>(
                PduParseErr::BufferEnded { field: Some("peek_type34_mbit_and_id mbit") },
            ) && t == s
            &&& left > 0 && !s.bits[s.pos] ==> header == Ok::<_, PduParseErr>(
                None::<(usize, usize)>,
            ) && t == s
            &&& 0 < left < 5 && s.bits[s.pos] ==> header == Err::<Option<(usize, usize)>, _>(
                PduParseErr::BufferEnded { field: Some("peek_type34_mbit_and_id id_bits") },
            ) && t == s
            &&& left >= 5 && s.bits[s.pos] && !starts_here(s, id) ==> header
                == Ok::<_, PduParseErr>(None::<(usize, usize)>) && t == s
            &&& starts_here(s, id) && left < 16 ==> header == Err::<Option<(usize, usize)>, _>(
                PduParseErr::BufferEnded { field: Some("parse_type4_header len_bits") },
            ) && bitbuffer::moved(s, t, s.pos + 5)
            &&& starts_here(s, id) && 16 <= left < 22 ==> header == Err::<
                Option<(usize, usize)>,
                _,
            >(PduParseErr::BufferEnded { field: Some("parse_type4_header num_elems") })
                && bitbuffer::moved(s, t, s.pos + 16)
            &&& starts_here(s, id) && left >= 22 && length_here(s, len) && len < 6 ==> header
                == Err::<Option<(usize, usize)>, _>(
                PduParseErr::InconsistentLength { expected: 6, found: len as usize },
            ) && bitbuffer::moved(s, t, s.pos + 22)
            &&& starts_here(s, id) && left >= 22 && length_here(s, len) && len >= 6 && left < 16
                + len ==> header == Err::<Option<(usize, usize)>, _>(
                PduParseErr::BufferEnded { field: Some("parse_type4_header payload") },
            ) && bitbuffer::moved(s, t, s.pos + 22)
            &&& starts_here(s, id) && left >= 22 && length_here(s, len) && len >= 6 && left >= 16
                + len && elems < 64 && bits::holds(s.bits, s.pos + 16, 6, elems) ==> header
                == Ok::<_, PduParseErr>(Some((elems as usize, (len - 6) as usize)))
                && bitbuffer::moved(s, t, s.pos + 22)
        }),
{
    lemma2_to64();
    law_type3_header_is_read_at_the_cursor(s, id, "parse_type4_header len_bits", len);
    if s.bits.len() - s.pos >= 22 {
        lemma_number_here(s, s.pos + 16, 6, elems);
    }
}

/// A type 4 element is read from the cursor on: its header, and of its contents the number that the
/// first 64 bits hold. The cursor then stands behind all of its contents. One that is not there is
/// none, and what is wrong with a header is wrong with the element.
pub proof fn law_type4_is_read_at_the_cursor(obit: bool, id: u64)
    ensures
        forall|b: &mut BitBuffer, r: Result<Option<Type4FieldGeneric>, PduParseErr>|
            b@.well_formed() && #[trigger] call_ensures(
                typed::parse_type4_generic,
                (obit, b, id),
                r,
            ) ==> {
                &&& !obit ==> r == Ok::<_, PduParseErr>(None::<Type4FieldGeneric>)
                    && bitbuffer::moved(b@, final(b)@, b@.pos)
                &&& obit ==> match typed::type4_header(b@, id) {
                    (Err(e), t) => r == Err::<Option<Type4FieldGeneric>, _>(e) && final(b)@ == t,
                    (Ok(None), t) => r == Ok::<_, PduParseErr>(None::<Type4FieldGeneric>)
                        && final(b)@ == t,
                    (Ok(Some((elems, len))), t) => {
                        let kept = if len < 64 { len as int } else { 64 };
                        &&& r matches Ok(Some(field))
                        &&& field.field_id == id
                        &&& field.len == len
                        &&& field.elems == elems
                        &&& field.data < pow2(kept as nat)
                        &&& bits::holds(b@.bits, b@.pos + 22, kept, field.data as nat)
                        &&& bitbuffer::moved(b@, final(b)@, b@.pos + 22 + len)
                    },
                }
            },
{
    assert forall|b: &mut BitBuffer, r: Result<Option<Type4FieldGeneric>, PduParseErr>|
        b@.well_formed() && #[trigger] call_ensures(
            typed::parse_type4_generic,
            (obit, b, id),
            r,
        ) && obit implies match typed::type4_header(b@, id) {
        (Err(e), t) => r == Err::<Option<Type4FieldGeneric>, _>(e) && final(b)@ == t,
        (Ok(None), t) => r == Ok::<_, PduParseErr>(None::<Type4FieldGeneric>) && final(b)@ == t,
        (Ok(Some((elems, len))), t) => {
            let kept = if len < 64 { len as int } else { 64 };
            &&& r matches Ok(Some(field))
            &&& field.field_id == id
            &&& field.len == len
            &&& field.elems == elems
            &&& field.data < pow2(kept as nat)
            &&& bits::holds(b@.bits, b@.pos + 22, kept, field.data as nat)
            &&& bitbuffer::moved(b@, final(b)@, b@.pos + 22 + len)
        },
    } by {
        lemma2_to64();
        if let (Ok(Some((elems, len))), t) = typed::type4_header(b@, id) {
            lemma_number_here(b@, b@.pos + 5, 11, 0);
            let kept = if len < 64 { len as int } else { 64 };
            typed::lemma_value_fits(t, kept);
            bits::lemma_field_holds_its_number(b@.bits, b@.pos + 22, kept);
        }
    }
}

/// Skipping what is left of an optional part stops behind the first M-bit of 0. An element before it
/// is passed by its length, whatever its identifier: from behind it skipping goes the same way. What
/// ends too early is an error that names the part that is missing.
pub proof fn law_skipping_goes_from_element_to_element(len: nat)
    ensures
        forall|b: &mut BitBuffer, r: Result<(), PduParseErr>|
            b@.well_formed() && #[trigger] call_ensures(
                typed::skip_remaining_type34,
                (true, b),
                r,
            ) ==> {
                let s = b@;
                let left = s.bits.len() - s.pos;
                &&& left == 0 ==> r == Err::<(), _>(
                    PduParseErr::BufferEnded { field: Some("trailing_mbit") },
                ) && bitbuffer::moved(s, final(b)@, s.pos)
                &&& left > 0 && !s.bits[s.pos] ==> r is Ok && bitbuffer::moved(
                    s,
                    final(b)@,
                    s.pos + 1,
                )
                &&& 0 < left < 5 && s.bits[s.pos] ==> r == Err::<(), _>(
                    PduParseErr::BufferEnded { field: Some("type34_element_id") },
                ) && bitbuffer::moved(s, final(b)@, s.pos + 1)
                &&& 5 <= left < 16 && s.bits[s.pos] ==> r == Err::<(), _>(
                    PduParseErr::BufferEnded { field: Some("type34_length_indicator") },
                ) && bitbuffer::moved(s, final(b)@, s.pos + 5)
                &&& 16 <= left < 16 + len && s.bits[s.pos] && length_here(s, len) ==> r == Err::<
                    (),
                    _,
                >(PduParseErr::BufferEnded { field: Some("skip_remaining_type34 data") })
                    && bitbuffer::moved(s, final(b)@, s.pos + 16)
            },
        forall|
            b: &mut BitBuffer,
            r: Result<(), PduParseErr>,
            behind: &mut BitBuffer,
            q: Result<(), PduParseErr>,
        |
            b@.well_formed() && #[trigger] call_ensures(typed::skip_remaining_type34, (true, b), r)
                && #[trigger] call_ensures(typed::skip_remaining_type34, (true, behind), q)
                && b@.bits.len() - b@.pos >= 16 + len && b@.bits[b@.pos] && length_here(b@, len)
                && bitbuffer::moved(b@, behind@, b@.pos + 16 + len) ==> r == q && final(b)@
                == final(behind)@,
        forall|b: &mut BitBuffer, r: Result<(), PduParseErr>| #[trigger]
            call_ensures(typed::skip_remaining_type34, (false, b), r) ==> r is Ok && final(b)@
                == b@,
{
    lemma2_to64();
    assert forall|s: BitState|
        #[trigger] s.well_formed() && s.bits.len() - s.pos >= 16 implies (length_here(s, len)
        <==> s.value_at(5, 11) == len) by {
        lemma_number_here(s, s.pos + 5, 11, len);
    }
    assert forall|
        b: &mut BitBuffer,
        r: Result<(), PduParseErr>,
        behind: &mut BitBuffer,
        q: Result<(), PduParseErr>,
    |
        b@.well_formed() && #[trigger] call_ensures(typed::skip_remaining_type34, (true, b), r)
            && #[trigger] call_ensures(typed::skip_remaining_type34, (true, behind), q)
            && b@.bits.len() - b@.pos >= 16 + len && b@.bits[b@.pos] && length_here(b@, len)
            && bitbuffer::moved(b@, behind@, b@.pos + 16 + len) implies r == q && final(b)@
        == final(behind)@ by {
        assert(b@.value_at(5, 11) == len);
        assert(behind@ =~= b@.skip(16int + b@.value_at(5, 11)));
    }
}

/// There is no writer for type 4 elements whose contents are not known: one is refused, and nothing
/// is ever written.
pub proof fn law_unknown_type4_elements_are_not_written(
    obit: bool,
    value: Option<Type4FieldGeneric>,
    id: u64,
)
    ensures
        forall|b: &mut BitBuffer, r: Result<(), PduParseErr>| #[trigger]
            call_ensures(typed::write_type4_todo, (obit, b, &value, id), r) ==> {
                &&& final(b)@ == b@
                &&& value is None ==> r is Ok
                &&& value is Some ==> r == Err::<(), _>(
                    PduParseErr::InvalidValue { field: "write_type4_todo", value: id },
                )
            },
{
}

/// The parser of a type 2 element's contents is called behind a P-bit of 1, and what it makes of
/// them is what is read. Without an O-bit, or with a P-bit of 0, there is no element and no call.
pub proof fn law_type2_contents_are_left_to_their_parser<T, F>(obit: bool, parser: F) where
    F: FnOnce(&mut BitBuffer) -> Result<T, PduParseErr>,

    ensures
        forall|b: &mut BitBuffer, r: Result<Option<T>, PduParseErr>|
            b@.well_formed() && #[trigger] call_ensures(
                typed::parse_type2_struct::<T, F>,
                (obit, b, parser),
                r,
            ) ==> {
                let s = b@;
                let there = s.pos < s.bits.len();
                &&& !obit ==> r == Ok::<_, PduParseErr>(None::<T>) && final(b)@ == s
                &&& obit && !there ==> r == Err::<Option<T>, _>(
                    PduParseErr::BufferEnded { field: Some("pbit") },
                ) && final(b)@ == s
                &&& obit && there && !s.bits[s.pos] ==> r == Ok::<_, PduParseErr>(None::<T>)
                    && bitbuffer::moved(s, final(b)@, s.pos + 1)
                &&& obit && there && s.bits[s.pos] ==> exists|
                    c: &mut BitBuffer,
                    q: Result<T, PduParseErr>,
                |
                    {
                        &&& #[trigger] call_ensures(parser, (c,), q)
                        &&& bitbuffer::moved(s, c@, s.pos + 1)
                        &&& final(b)@ == final(c)@
                        &&& q matches Ok(v) ==> r == Ok::<_, PduParseErr>(Some(v))
                        &&& q matches Err(e) ==> r == Err::<Option<T>, _>(e)
                    }
            },
{
}

/// The parser of a type 3 element's contents is called behind the header. What it makes of them is
/// what is read where it stops exactly where the length says; where it stops elsewhere, the lengths
/// disagree. Where the element is not there, or its header is not whole, there is no call.
pub proof fn law_type3_contents_are_left_to_their_parser<T, F>(obit: bool, id: u64, parser: F) where
    F: FnOnce(&mut BitBuffer) -> Result<T, PduParseErr>,

    ensures
        forall|b: &mut BitBuffer, r: Result<Option<T>, PduParseErr>|
            b@.well_formed() && #[trigger] call_ensures(
                typed::parse_type3_struct::<T, F>,
                (obit, b, id, parser),
                r,
            ) ==> {
                let s = b@;
                let (header, t) = typed::type3_header(s, id, "parse_type3_struct len_bits");
                &&& !obit ==> r == Ok::<_, PduParseErr>(None::<T>) && final(b)@ == s
                &&& obit ==> (header matches Err(e) ==> r == Err::<Option<T>, _>(e) && final(b)@
                    == t)
                &&& obit && header == Ok::<_, PduParseErr>(None::<int>) ==> r
                    == Ok::<_, PduParseErr>(None::<T>) && final(b)@ == s
                &&& obit ==> (header matches Ok(Some(len)) ==> exists|
                    c: &mut BitBuffer,
                    q: Result<T, PduParseErr>,
                |
                    {
                        &&& #[trigger] call_ensures(parser, (c,), q)
                        &&& bitbuffer::moved(s, c@, s.pos + 16)
                        &&& final(b)@ == final(c)@
                        &&& q matches Err(e) ==> r == Err::<Option<T>, _>(e)
                        &&& q matches Ok(v) ==> {
                            &&& final(b)@.pos == s.pos + 16 + len ==> r == Ok::<_, PduParseErr>(
                                Some(v),
                            )
                            &&& final(b)@.pos != s.pos + 16 + len ==> r == Err::<Option<T>, _>(
                                PduParseErr::InconsistentLength {
                                    expected: len as usize,
                                    found: (final(b)@.pos - s.pos - 16) as usize,
                                },
                            )
                        }
                    })
            },
{
}

/// The parser of one repetition of a type 4 element's contents is called as often as the header
/// says, each time where the call before it stopped, the first time behind the header. The values
/// are what is read where the last call stops exactly where the length says; otherwise the lengths
/// disagree. The first call that fails is the last one.
pub proof fn law_type4_contents_are_left_to_their_parser<T, F>(obit: bool, id: u64, parser: F) where
    F: Fn(&mut BitBuffer) -> Result<T, PduParseErr>,

    ensures
        forall|b: &mut BitBuffer, r: Result<Option<Vec<T>>, PduParseErr>|
            b@.well_formed() && #[trigger] call_ensures(
                typed::parse_type4_struct::<T, F>,
                (obit, b, id, parser),
                r,
            ) ==> {
                let s = b@;
                let (header, t) = typed::type4_header(s, id);
                &&& !obit ==> r == Ok::<_, PduParseErr>(None::<Vec<T>>) && final(b)@ == s
                &&& obit ==> (header matches Err(e) ==> r == Err::<Option<Vec<T>>, _>(e)
                    && final(b)@ == t)
                &&& obit && header == Ok::<_, PduParseErr>(None::<(usize, usize)>) ==> r
                    == Ok::<_, PduParseErr>(None::<Vec<T>>) && final(b)@ == s
                &&& obit ==> (header matches Ok(Some((n, len))) ==> {
                    &&& r matches Ok(found) ==> {
                        &&& found matches Some(values)
                        &&& values@.len() == n
                        &&& final(b)@.pos == s.pos + 22 + len
                        &&& exists|states: Seq<BitState>|
                            {
                                &&& #[trigger] chained(states, t, final(b)@, values@.len())
                                &&& forall|k: int| #[trigger]
                                    typed::nth(values@, k) ==> exists|c: &mut BitBuffer|
                                        {
                                            &&& #[trigger] call_ensures(parser, (c,), Ok(values@[k]))
                                            &&& c@ == states[k]
                                            &&& final(c)@ == states[k + 1]
                                        }
                            }
                    }
                    &&& r matches Err(e) ==> exists|states: Seq<BitState>, values: Seq<T>, last: BitState|
                        {
                            &&& #[trigger] chained(states, t, last, values.len())
                            &&& forall|k: int| #[trigger]
                                typed::nth(values, k) ==> exists|c: &mut BitBuffer|
                                    {
                                        &&& #[trigger] call_ensures(parser, (c,), Ok(values[k]))
                                        &&& c@ == states[k]
                                        &&& final(c)@ == states[k + 1]
                                    }
                            &&& values.len() <= n
                            &&& values.len() < n ==> exists|c: &mut BitBuffer|
                                {
                                    &&& #[trigger] call_ensures(parser, (c,), Err(e))
                                    &&& c@ == last
                                    &&& final(c)@ == final(b)@
                                }
                            &&& values.len() == n ==> {
                                &&& final(b)@ == last
                                &&& last.pos != s.pos + 22 + len
                                &&& e == PduParseErr::InconsistentLength {
                                    expected: len,
                                    found: (last.pos - s.pos - 22) as usize,
                                }
                            }
                        }
                    &&& bitbuffer::moved(s, t, s.pos + 22)
                })
            },
{
    assert forall|b: &mut BitBuffer, r: Result<Option<Vec<T>>, PduParseErr>|
        b@.well_formed() && #[trigger] call_ensures(
            typed::parse_type4_struct::<T, F>,
            (obit, b, id, parser),
            r,
        ) && obit implies {
        typed::type4_header(b@, id).0 matches Ok(Some((n, len))) ==> {
            let s = b@;
            let t = typed::type4_header(s, id).1;
            &&& r matches Ok(found) ==> {
                &&& found matches Some(values)
                &&& values@.len() == n
                &&& final(b)@.pos == s.pos + 22 + len
                &&& exists|states: Seq<BitState>|
                    {
                        &&& #[trigger] chained(states, t, final(b)@, values@.len())
                        &&& forall|k: int| #[trigger]
                            typed::nth(values@, k) ==> exists|c: &mut BitBuffer|
                                {
                                    &&& #[trigger] call_ensures(parser, (c,), Ok(values@[k]))
                                    &&& c@ == states[k]
                                    &&& final(c)@ == states[k + 1]
                                }
                    }
            }
            &&& r matches Err(e) ==> exists|states: Seq<BitState>, values: Seq<T>, last: BitState|
                {
                    &&& #[trigger] chained(states, t, last, values.len())
                    &&& forall|k: int| #[trigger]
                        typed::nth(values, k) ==> exists|c: &mut BitBuffer|
                            {
                                &&& #[trigger] call_ensures(parser, (c,), Ok(values[k]))
                                &&& c@ == states[k]
                                &&& final(c)@ == states[k + 1]
                            }
                    &&& values.len() <= n
                    &&& values.len() < n ==> exists|c: &mut BitBuffer|
                        {
                            &&& #[trigger] call_ensures(parser, (c,), Err(e))
                            &&& c@ == last
                            &&& final(c)@ == final(b)@
                        }
                    &&& values.len() == n ==> {
                        &&& final(b)@ == last
                        &&& last.pos != s.pos + 22 + len
                        &&& e == PduParseErr::InconsistentLength {
                            expected: len,
                            found: (last.pos - s.pos - 22) as usize,
                        }
                    }
                }
        }
    } by {
        if let Ok(Some((n, len))) = typed::type4_header(b@, id).0 {
            let t = typed::type4_header(b@, id).1;
            let (states, values) = choose|states: Seq<BitState>, values: Seq<T>|
                {
                    &&& #[trigger] typed::run(t, states, values)
                    &&& values.len() <= n
                    &&& forall|k: int| #[trigger]
                        typed::nth(values, k) ==> exists|c: &mut BitBuffer|
                            {
                                &&& #[trigger] call_ensures(parser, (c,), Ok(values[k]))
                                &&& c@ == states[k]
                                &&& final(c)@ == states[k + 1]
                            }
                    &&& if values.len() < n {
                        exists|c: &mut BitBuffer, e: PduParseErr|
                            {
                                &&& #[trigger] call_ensures(parser, (c,), Err(e))
                                &&& c@ == states.last()
                                &&& final(c)@ == final(b)@
                                &&& r == Err::<Option<Vec<T>>, _>(e)
                            }
                    } else {
                        &&& final(b)@ == states.last()
                        &&& if final(b)@.pos == t.pos + len {
                            r matches Ok(Some(v)) && v@ == values
                        } else {
                            r == Err::<Option<Vec<T>>, _>(
                                PduParseErr::InconsistentLength {
                                    expected: len,
                                    found: (final(b)@.pos - t.pos) as usize,
                                },
                            )
                        }
                    }
                };
            assert(chained(states, t, states.last(), values.len()));
        }
    }
}

/// `states` lead from `from` to `to` in `n` steps.
pub open spec fn chained(states: Seq<BitState>, from: BitState, to: BitState, n: nat) -> bool {
    states.len() == n + 1 && states[0] == from && states[n as int] == to
}

/// The writer of a type 2 element's contents is called behind a P-bit of 1. A missing element is a
/// P-bit of 0, and without an O-bit nothing is written.
pub proof fn law_type2_contents_are_left_to_their_writer<T, F>(
    obit: bool,
    value: Option<T>,
    writer: F,
) where F: Fn(&T, &mut BitBuffer) -> Result<(), PduParseErr>
    ensures
        forall|b: &mut BitBuffer, r: Result<(), PduParseErr>|
            b@.well_formed() && #[trigger] call_ensures(
                typed::write_type2_struct::<T, F>,
                (obit, b, &value, writer),
                r,
            ) ==> {
                &&& !obit ==> r is Ok && final(b)@ == b@
                &&& obit && value is None ==> {
                    &&& r is Ok
                    &&& !final(b)@.bits[b@.pos]
                    &&& bitbuffer::wrote(b@, final(b)@, 1)
                }
                &&& obit ==> (value matches Some(v) ==> exists|c: &mut BitBuffer|
                    {
                        &&& #[trigger] call_ensures(writer, (&v, c), r)
                        &&& c@.bits[b@.pos]
                        &&& bitbuffer::wrote(b@, c@, 1)
                        &&& final(c)@ == final(b)@
                    })
            },
{
}

/// The writer of a type 3 element's contents is called behind an M-bit of 1, four digits of the
/// identifier and room for eleven digits, which take the length of what it has written. A missing
/// element is not written at all, and one without an O-bit is refused.
pub proof fn law_type3_contents_are_left_to_their_writer<T, F>(
    obit: bool,
    value: Option<T>,
    id: u64,
    writer: F,
) where F: Fn(&T, &mut BitBuffer) -> Result<(), PduParseErr>
    ensures
        forall|b: &mut BitBuffer, r: Result<(), PduParseErr>|
            b@.well_formed() && #[trigger] call_ensures(
                typed::write_type3_struct::<T, F>,
                (obit, b, &value, id, writer),
                r,
            ) ==> {
                &&& value is None ==> r is Ok && final(b)@ == b@
                &&& value is Some && !obit ==> {
                    &&& r == Err::<(), _>(
                        PduParseErr::InvalidValue { field: "write_type3_struct", value: id },
                    )
                    &&& final(b)@ == b@
                }
                &&& obit ==> (value matches Some(v) ==> exists|c: &mut BitBuffer|
                    {
                        &&& #[trigger] call_ensures(writer, (&v, c), r)
                        &&& c@.bits[b@.pos]
                        &&& bits::holds(c@.bits, b@.pos + 1, 4, id as nat)
                        &&& bitbuffer::wrote(b@, c@, 16)
                        &&& r is Err ==> final(b)@ == final(c)@
                        &&& r is Ok && final(c)@.well_formed() && b@.pos + 16 <= final(c)@.pos ==> {
                            &&& bits::holds(
                                final(b)@.bits,
                                b@.pos + 5,
                                11,
                                (final(c)@.pos - b@.pos - 16) as nat,
                            )
                            &&& final(b)@.pos == final(c)@.pos
                            &&& final(b)@.bits.len() == final(c)@.bits.len()
                            &&& final(b)@.autoexpand == final(c)@.autoexpand
                            &&& forall|i: int|
                                0 <= i < final(c)@.bits.len() && (i < b@.pos + 5 || b@.pos + 16
                                    <= i) ==> #[trigger] final(b)@.bits[i] == final(c)@.bits[i]
                        }
                    })
            },
{
    assert forall|b: &mut BitBuffer, r: Result<(), PduParseErr>|
        b@.well_formed() && #[trigger] call_ensures(
            typed::write_type3_struct::<T, F>,
            (obit, b, &value, id, writer),
            r,
        ) && obit && value is Some implies {
        let t = typed::type3_opened(b@, id);
        &&& t.bits[b@.pos]
        &&& bits::holds(t.bits, b@.pos + 1, 4, id as nat)
        &&& bitbuffer::wrote(b@, t, 16)
        &&& t.pos == b@.pos + 16
    } by {
        lemma_opened(b@, id, 11);
    }
    assert forall|s: BitState, start: int|
        s.well_formed() && 11 <= start <= s.pos implies {
        let t = #[trigger] typed::type3_closed(s, start);
        &&& bits::holds(t.bits, start - 11, 11, (s.pos - start) as nat)
        &&& t.pos == s.pos
        &&& t.bits.len() == s.bits.len()
        &&& t.autoexpand == s.autoexpand
        &&& forall|i: int|
            0 <= i < s.bits.len() && (i < start - 11 || start <= i) ==> #[trigger] t.bits[i]
                == s.bits[i]
    } by {
        lemma_backfilled(s, start - 11, (s.pos - start) as nat, 11);
    }
}

/// The start of an element and the room for its numbers.
proof fn lemma_opened(s: BitState, id: u64, n: nat)
    requires
        s.well_formed(),
    ensures
        ({
            let t = s.write(typed::type34_header_bits(id)).write_value(0, n);
            &&& t.bits[s.pos]
            &&& bits::holds(t.bits, s.pos + 1, 4, id as nat)
            &&& bitbuffer::wrote(s, t, 5int + n)
            &&& t.pos == s.pos + 5 + n
        }),
{
    let head = typed::type34_header_bits(id);
    let room = bits::value_bits(0, n);
    bits::lemma_value_bits_len(id as nat, 4);
    bits::lemma_value_bits_len(0, n);
    bitbuffer::lemma_write_twice(s, head, room);
    let new = head + room;
    bitbuffer::lemma_write_is_wrote(s, new);
    let t = s.write(new);
    assert(t.bits[s.pos] == t.bits.subrange(s.pos, s.pos + new.len())[0]);
    assert(new.subrange(1, 1int + 4) =~= bits::value_bits(id as nat, 4));
    bits::lemma_holds(new, 1, 4, id as nat);
    lemma_written_field(s, new, 1, 4, id as nat);
}

/// A number that is put into a field of a buffer.
proof fn lemma_backfilled(s: BitState, from: int, value: nat, n: nat)
    requires
        s.well_formed(),
        0 <= from,
        from + n <= s.pos,
    ensures
        ({
            let t = s.at(from).write_value(value, n);
            &&& bits::holds(t.bits, from, n as int, value)
            &&& t.bits.len() == s.bits.len()
            &&& t.autoexpand == s.autoexpand
            &&& t.pos == from + n
            &&& forall|i: int|
                0 <= i < s.bits.len() && (i < from || from + n <= i) ==> #[trigger] t.bits[i]
                    == s.bits[i]
        }),
{
    let new = bits::value_bits(value, n);
    bits::lemma_value_bits_len(value, n);
    bitbuffer::lemma_write_is_wrote(s.at(from), new);
    assert(new.subrange(0, 0 + n as int) =~= new);
    bits::lemma_holds(new, 0, n as int, value);
    lemma_written_field(s.at(from), new, 0, n as int, value);
}

/// The writer of one repetition of a type 4 element's contents is called for each of the values in
/// turn, each time where the call before it stopped, the first time behind an M-bit of 1, four
/// digits of the identifier and room for 17. Once all of them are written, that room takes the
/// length of what they have written, with six more, in eleven digits, and their number in six. The
/// first call that fails is the last one. A missing element is not written at all, and one without
/// an O-bit is refused.
pub proof fn law_type4_contents_are_left_to_their_writer<T, F>(
    obit: bool,
    value: Option<Vec<T>>,
    id: u64,
    writer: F,
) where F: Fn(&T, &mut BitBuffer) -> Result<(), PduParseErr>
    ensures
        forall|b: &mut BitBuffer, r: Result<(), PduParseErr>|
            b@.well_formed() && #[trigger] call_ensures(
                typed::write_type4_struct::<T, F>,
                (obit, b, &value, id, writer),
                r,
            ) ==> {
                &&& value is None ==> r is Ok && final(b)@ == b@
                &&& value is Some && !obit ==> {
                    &&& r == Err::<(), _>(
                        PduParseErr::InvalidValue { field: "write_type4_struct", value: id },
                    )
                    &&& final(b)@ == b@
                }
                &&& obit ==> (value matches Some(elems) ==> exists|
                    states: Seq<BitState>,
                    opened: BitState,
                    done: Seq<T>,
                    last: BitState,
                |
                    {
                        &&& #[trigger] chained(states, opened, last, done.len())
                        &&& forall|k: int| #[trigger]
                            typed::nth(done, k) ==> exists|c: &mut BitBuffer, q: Result<(), PduParseErr>|
                                {
                                    &&& #[trigger] call_ensures(writer, (&done[k], c), q)
                                    &&& q is Ok
                                    &&& c@ == states[k]
                                    &&& final(c)@ == states[k + 1]
                                }
                        &&& opened.bits[b@.pos]
                        &&& bits::holds(opened.bits, b@.pos + 1, 4, id as nat)
                        &&& bitbuffer::wrote(b@, opened, 22)
                        &&& done == elems@.take(done.len() as int)
                        &&& done.len() <= elems@.len()
                        &&& r is Ok <==> done.len() == elems@.len()
                        &&& r is Err ==> exists|c: &mut BitBuffer|
                            {
                                &&& #[trigger] call_ensures(
                                    writer,
                                    (&elems@[done.len() as int], c),
                                    r,
                                )
                                &&& c@ == last
                                &&& final(c)@ == final(b)@
                            }
                        &&& r is Ok && last.well_formed() && b@.pos + 22 <= last.pos ==> {
                            &&& bits::holds(
                                final(b)@.bits,
                                b@.pos + 5,
                                11,
                                (last.pos - b@.pos - 16) as nat,
                            )
                            &&& bits::holds(final(b)@.bits, b@.pos + 16, 6, elems@.len())
                            &&& final(b)@.pos == last.pos
                            &&& final(b)@.bits.len() == last.bits.len()
                            &&& final(b)@.autoexpand == last.autoexpand
                            &&& forall|i: int|
                                0 <= i < last.bits.len() && (i < b@.pos + 5 || b@.pos + 22 <= i)
                                    ==> #[trigger] final(b)@.bits[i] == last.bits[i]
                        }
                    })
            },
{
    assert forall|b: &mut BitBuffer, r: Result<(), PduParseErr>|
        b@.well_formed() && #[trigger] call_ensures(
            typed::write_type4_struct::<T, F>,
            (obit, b, &value, id, writer),
            r,
        ) && obit implies {
        value matches Some(elems) ==> exists|
            states: Seq<BitState>,
            opened: BitState,
            done: Seq<T>,
            last: BitState,
        |
            {
                &&& #[trigger] chained(states, opened, last, done.len())
                &&& forall|k: int| #[trigger]
                    typed::nth(done, k) ==> exists|c: &mut BitBuffer, q: Result<(), PduParseErr>|
                        {
                            &&& #[trigger] call_ensures(writer, (&done[k], c), q)
                            &&& q is Ok
                            &&& c@ == states[k]
                            &&& final(c)@ == states[k + 1]
                        }
                &&& opened.bits[b@.pos]
                &&& bits::holds(opened.bits, b@.pos + 1, 4, id as nat)
                &&& bitbuffer::wrote(b@, opened, 22)
                &&& done == elems@.take(done.len() as int)
                &&& done.len() <= elems@.len()
                &&& r is Ok <==> done.len() == elems@.len()
                &&& r is Err ==> exists|c: &mut BitBuffer|
                    {
                        &&& #[trigger] call_ensures(writer, (&elems@[done.len() as int], c), r)
                        &&& c@ == last
                        &&& final(c)@ == final(b)@
                    }
                &&& r is Ok && last.well_formed() && b@.pos + 22 <= last.pos ==> {
                    &&& bits::holds(
                        final(b)@.bits,
                        b@.pos + 5,
                        11,
                        (last.pos - b@.pos - 16) as nat,
                    )
                    &&& bits::holds(final(b)@.bits, b@.pos + 16, 6, elems@.len())
                    &&& final(b)@.pos == last.pos
                    &&& final(b)@.bits.len() == last.bits.len()
                    &&& final(b)@.autoexpand == last.autoexpand
                    &&& forall|i: int|
                        0 <= i < last.bits.len() && (i < b@.pos + 5 || b@.pos + 22 <= i)
                            ==> #[trigger] final(b)@.bits[i] == last.bits[i]
                }
            }
    } by {
        if let Some(elems) = value {
            let t = typed::type4_opened(b@, id);
            lemma_opened(b@, id, 17);
            let (states, done) = choose|states: Seq<BitState>, done: Seq<T>|
                {
                    &&& #[trigger] typed::run(t, states, done)
                    &&& done.len() <= elems@.len()
                    &&& done == elems@.take(done.len() as int)
                    &&& forall|k: int| #[trigger]
                        typed::nth(done, k) ==> exists|c: &mut BitBuffer, q: Result<(), PduParseErr>|
                            {
                                &&& #[trigger] call_ensures(writer, (&done[k], c), q)
                                &&& q is Ok
                                &&& c@ == states[k]
                                &&& final(c)@ == states[k + 1]
                            }
                    &&& if done.len() < elems@.len() {
                        r is Err && exists|c: &mut BitBuffer|
                            {
                                &&& #[trigger] call_ensures(
                                    writer,
                                    (&elems@[done.len() as int], c),
                                    r,
                                )
                                &&& c@ == states.last()
                                &&& final(c)@ == final(b)@
                            }
                    } else {
                        &&& r == Ok::<(), PduParseErr>(())
                        &&& final(b)@ == typed::type4_closed(states.last(), t.pos, elems@.len())
                    }
                };
            let last = states.last();
            assert(chained(states, t, last, done.len()));
            if r is Ok && last.well_formed() && b@.pos + 22 <= last.pos {
                let start = t.pos;
                let len = (last.pos - start + 6) as nat;
                lemma_backfilled(last, start - 17, len, 11);
                let u = last.at(start - 17).write_value(len, 11);
                lemma_backfilled(u.at(last.pos), start - 6, elems@.len(), 6);
                let v = u.write_value(elems@.len(), 6);
                assert(u.at(last.pos).at(start - 6) == u);
                assert(final(b)@ == v.at(last.pos));
                assert forall|j: int| start - 17 <= j < start - 6 implies #[trigger] v.bits[j]
                    == u.bits[j] by {}
                assert(bits::holds(v.bits, start - 17, 11, len));
            }
        }
    }
}

} // verus!
