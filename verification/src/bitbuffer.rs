//! A cursor over a string of bits, from which fields are read and to which they are written.

use vstd::arithmetic::power2::*;
use vstd::bits::*;
use vstd::prelude::*;

use crate::bits;
use crate::pdu_parse_error::PduParseErr;

verus! {

/// What a [`BitBuffer`] is: its bits, the position of the cursor among them, and whether a write
/// behind the last bit makes the buffer grow.
#[verifier::ext_equal]
pub struct BitState {
    pub bits: Seq<bool>,
    pub pos: int,
    pub autoexpand: bool,
}

impl BitState {
    pub open spec fn well_formed(self) -> bool {
        0 <= self.pos <= self.bits.len() <= usize::MAX
    }

    /// How many bits there are from the cursor on.
    pub open spec fn remaining(self) -> int {
        self.bits.len() - self.pos
    }

    /// The same bits with the cursor at `pos`.
    pub open spec fn at(self, pos: int) -> BitState {
        BitState { pos, ..self }
    }

    /// The same bits with the cursor `n` bits further.
    pub open spec fn skip(self, n: int) -> BitState {
        self.at(self.pos + n)
    }

    /// The number held by the `n` bits that start `offset` bits behind the cursor.
    pub open spec fn value_at(self, offset: int, n: int) -> nat {
        bits::bits_value(self.bits.subrange(self.pos + offset, self.pos + offset + n))
    }

    /// The number held by the next `n` bits.
    pub open spec fn value(self, n: int) -> nat {
        self.value_at(0, n)
    }

    /// Reading a field of `n` bits: its value, with the cursor behind it; or, where fewer bits are
    /// left, an error that names the field, with the cursor where it was.
    pub open spec fn read(self, n: int, name: &'static str) -> (Result<u64, PduParseErr>, BitState) {
        if n <= self.remaining() {
            (Ok(self.value(n) as u64), self.skip(n))
        } else {
            (Err(PduParseErr::BufferEnded { field: Some(name) }), self)
        }
    }

    /// Writing `new` at the cursor: it takes the place of the bits that stand there, or is
    /// appended where there are none, and the cursor moves behind it.
    pub open spec fn write(self, new: Seq<bool>) -> BitState {
        let end = self.pos + new.len();
        BitState {
            bits: self.bits.subrange(0, self.pos) + new + if end <= self.bits.len() {
                self.bits.subrange(end, self.bits.len() as int)
            } else {
                Seq::empty()
            },
            pos: end,
            autoexpand: self.autoexpand,
        }
    }

    /// Writing `value` as a field of `n` bits.
    pub open spec fn write_value(self, value: nat, n: nat) -> BitState {
        self.write(bits::value_bits(value, n))
    }

    /// The bits from the cursor on start with `expected`.
    pub open spec fn next_is(self, expected: Seq<bool>) -> bool {
        &&& expected.len() <= self.remaining()
        &&& self.bits.subrange(self.pos, self.pos + expected.len()) == expected
    }

    /// There is room for `n` more bits, or it can be made.
    pub open spec fn has_room(self, n: int) -> bool {
        &&& self.pos + n <= usize::MAX
        &&& self.autoexpand || n <= self.remaining()
    }
}

/// Two writes in a row are one write of both.
pub proof fn lemma_write_twice(s: BitState, first: Seq<bool>, second: Seq<bool>)
    requires
        s.well_formed(),
    ensures
        s.write(first).write(second) == s.write(first + second),
{
    assert(s.write(first).write(second) =~= s.write(first + second));
}

/// Room for two bit strings is room for the second once the first has been written.
pub proof fn lemma_room_left(s: BitState, new: Seq<bool>, n: nat)
    requires
        s.well_formed(),
        s.has_room((new.len() + n) as int),
    ensures
        s.write(new).well_formed(),
        s.write(new).has_room(n as int),
{
}

/// What was written is found where it was written, and the cursor stands behind it.
pub proof fn lemma_written_is_next(s: BitState, new: Seq<bool>)
    requires
        s.well_formed(),
    ensures
        s.write(new).at(s.pos).next_is(new),
        s.write(new) == s.write(new).at(s.pos).skip(new.len() as int),
{
    let t = s.write(new).at(s.pos);
    assert(t.bits.subrange(t.pos, t.pos + new.len()) =~= new);
}

/// Where two bit strings follow each other, each is found in its place.
pub proof fn lemma_next_is_split(s: BitState, first: Seq<bool>, second: Seq<bool>)
    requires
        s.well_formed(),
    ensures
        s.next_is(first + second) <==> s.next_is(first) && s.skip(first.len() as int).next_is(
            second,
        ),
{
    let (n, m) = (first.len() as int, second.len() as int);
    if s.next_is(first + second) {
        let both = s.bits.subrange(s.pos, s.pos + (n + m));
        assert(s.bits.subrange(s.pos, s.pos + n) =~= both.subrange(0, n));
        assert((first + second).subrange(0, n) =~= first);
        assert(s.bits.subrange(s.pos + n, s.pos + n + m) =~= both.subrange(n, n + m));
        assert((first + second).subrange(n, n + m) =~= second);
    }
    if s.next_is(first) && s.skip(n).next_is(second) {
        assert(s.bits.subrange(s.pos, s.pos + (n + m)) =~= s.bits.subrange(s.pos, s.pos + n)
            + s.bits.subrange(s.pos + n, s.pos + n + m));
    }
}

/// A field whose bits are next is read as its number.
pub proof fn lemma_value_is_next(s: BitState, value: nat, n: nat)
    requires
        s.well_formed(),
        value < pow2(n),
        s.next_is(bits::value_bits(value, n)),
    ensures
        n <= s.remaining(),
        s.value(n as int) == value,
{
    bits::lemma_value_of_bits(value, n);
}

/// A field that was written is read as the value that was written, and reading it leaves the
/// cursor where writing it did.
pub proof fn law_field_read_back(s: BitState, value: u64, n: nat, name: &'static str)
    requires
        s.well_formed(),
        value < pow2(n),
    ensures
        s.write_value(value as nat, n).at(s.pos).read(n as int, name) == (
            Ok::<u64, PduParseErr>(value),
            s.write_value(value as nat, n),
        ),
{
    let new = bits::value_bits(value as nat, n);
    bits::lemma_value_bits_len(value as nat, n);
    lemma_written_is_next(s, new);
    let t = s.write(new).at(s.pos);
    bits::lemma_value_of_bits(value as nat, n);
    assert(t.bits.subrange(t.pos, t.pos + n) == new);
}

/// Writing leaves every bit outside the field as it is.
pub proof fn law_writing_leaves_the_rest(s: BitState, new: Seq<bool>, i: int)
    requires
        s.well_formed(),
        0 <= i < s.bits.len(),
        i < s.pos || s.pos + new.len() <= i,
    ensures
        s.write(new).bits[i] == s.bits[i],
        s.write(new).bits.len() >= s.bits.len(),
{
}

/// A single bit that is next is the one at the cursor.
pub proof fn lemma_bit_is_next(s: BitState, bit: bool)
    requires
        s.well_formed(),
    ensures
        s.next_is(seq![bit]) <==> s.remaining() >= 1 && s.bits[s.pos] == bit,
{
    if s.remaining() >= 1 {
        assert(s.bits.subrange(s.pos, s.pos + 1) =~= seq![s.bits[s.pos]]);
        assert(seq![bit][0] == bit);
    }
}

/// The bits of a field are those of its number.
pub proof fn lemma_next_is_value(s: BitState, n: nat)
    requires
        s.well_formed(),
        n <= s.remaining(),
    ensures
        s.next_is(bits::value_bits(s.value(n as int), n)),
{
    bits::lemma_bits_of_value(s.bits.subrange(s.pos, s.pos + n));
}

/// The bit that a character of a bit string stands for is set.
pub open spec fn bit_of_char(c: char) -> bool {
    c == '1'
}

/// The character that stands for a bit.
pub open spec fn char_of_bit(bit: bool) -> char {
    if bit {
        '1'
    } else {
        '0'
    }
}

/// `text` consists of the characters `0` and `1` alone.
pub open spec fn is_bitstr(text: Seq<char>) -> bool {
    forall|i: int| 0 <= i < text.len() ==> #[trigger] text[i] == '0' || text[i] == '1'
}

/// A string of bits with a cursor.
#[derive(Debug)]
pub struct BitBuffer {
    data: Vec<bool>,
    pos: usize,
    autoexpand: bool,
}

impl View for BitBuffer {
    type V = BitState;

    closed spec fn view(&self) -> BitState {
        BitState { bits: self.data@, pos: self.pos as int, autoexpand: self.autoexpand }
    }
}

impl BitBuffer {
    /// The cursor never leaves the bits.
    #[verifier::type_invariant]
    pub open spec fn cursor_within(self) -> bool {
        self@.well_formed()
    }

    /// An empty buffer that grows with what is written to it. `capacity` is the number of bits
    /// that it is prepared for.
    pub fn new_autoexpand(capacity: usize) -> (buffer: BitBuffer)
        requires
            capacity <= isize::MAX,
        ensures
            buffer@ == (BitState { bits: Seq::empty(), pos: 0, autoexpand: true }),
    {
        BitBuffer { data: Vec::with_capacity(capacity), pos: 0, autoexpand: true }
    }

    /// A buffer of fixed size that holds the bits of `text`, with the cursor at the first.
    pub fn from_bitstr(text: &str) -> (buffer: BitBuffer)
        requires
            is_bitstr(text@),
        ensures
            buffer@ == (BitState {
                bits: Seq::new(text@.len(), |i: int| bit_of_char(text@[i])),
                pos: 0,
                autoexpand: false,
            }),
    {
        let mut data: Vec<bool> = Vec::new();
        for c in it: text.chars()
            invariant
                it.seq() == text@,
                data@.len() == it.index(),
                forall|i: int| 0 <= i < data@.len() ==> data@[i] == bit_of_char(text@[i]),
        {
            data.push(c == '1');
        }
        assert(data.len() <= usize::MAX);
        let buffer = BitBuffer { data, pos: 0, autoexpand: false };
        assert(buffer@.bits =~= Seq::new(text@.len(), |i: int| bit_of_char(text@[i])));
        buffer
    }

    /// Where the cursor is.
    pub fn get_pos(&self) -> (pos: usize)
        ensures
            pos == self@.pos,
    {
        self.pos
    }

    /// How many bits there are from the cursor on.
    pub fn get_len_remaining(&self) -> (n: usize)
        ensures
            n == self@.remaining(),
    {
        proof {
            use_type_invariant(self);
        }
        self.data.len() - self.pos
    }

    /// Put the cursor at `pos`.
    pub fn set_raw_pos(&mut self, pos: usize)
        requires
            pos <= old(self)@.bits.len(),
        ensures
            final(self)@ == old(self)@.at(pos as int),
    {
        proof {
            use_type_invariant(&*self);
        }
        self.pos = pos;
    }

    /// Where the cursor is, counted from the first bit of the buffer.
    pub fn get_raw_pos(&self) -> (pos: usize)
        ensures
            pos == self@.pos,
    {
        self.pos
    }

    /// Move the cursor by `n` bits, back where `n` is negative.
    pub fn seek_rel(&mut self, n: isize)
        requires
            0 <= old(self)@.pos + n <= old(self)@.bits.len(),
        ensures
            final(self)@ == old(self)@.skip(n as int),
    {
        proof {
            use_type_invariant(&*self);
        }
        let target: i128 = self.pos as i128 + n as i128;
        self.pos = target as usize;
    }

    /// Move the cursor by `n` bits if that leaves it within the buffer.
    pub fn try_seek_rel(&mut self, n: isize) -> (moved: Option<()>)
        ensures
            moved is Some <==> 0 <= old(self)@.pos + n <= old(self)@.bits.len(),
            final(self)@ == if moved is Some {
                old(self)@.skip(n as int)
            } else {
                old(self)@
            },
    {
        proof {
            use_type_invariant(&*self);
        }
        let target: i128 = self.pos as i128 + n as i128;
        if 0 <= target && target <= self.data.len() as i128 {
            self.pos = target as usize;
            Some(())
        } else {
            None
        }
    }

    /// The value of the `n` bits that start `offset` bits behind the cursor, which stays where it
    /// is. `None` if the buffer does not hold all of them.
    pub fn peek_bits_posoffset(&self, offset: usize, n: usize) -> (value: Option<u64>)
        requires
            n <= 64,
        ensures
            value == if offset + n <= self@.remaining() {
                Some(self@.value_at(offset as int, n as int) as u64)
            } else {
                None
            },
            value matches Some(v) ==> v == self@.value_at(offset as int, n as int) && v < pow2(
                n as nat,
            ),
    {
        proof {
            use_type_invariant(self);
            lemma2_to64();
            lemma2_to64_rest();
            if n < 64 {
                lemma_pow2_strictly_increases(n as nat, 64);
            }
        }
        let left: usize = self.data.len() - self.pos;
        if offset > left || n > left - offset {
            return None;
        }
        let start: usize = self.pos + offset;
        let ghost bits = self.data@.subrange(start as int, start + n);
        let mut value: u64 = 0;
        let mut i: usize = 0;
        while i < n
            invariant
                i <= n <= 64,
                start + n <= self.data@.len() <= usize::MAX,
                bits == self.data@.subrange(start as int, start + n),
                value == bits::bits_value(bits.subrange(0, i as int)),
            decreases n - i,
        {
            let bit: bool = self.data[start + i];
            proof {
                let taken = bits.subrange(0, i + 1);
                assert(taken.drop_last() =~= bits.subrange(0, i as int));
                assert(taken.last() == bit);
                bits::lemma_bits_value_bound(taken);
                lemma2_to64();
                lemma2_to64_rest();
                if i + 1 < 64 {
                    lemma_pow2_strictly_increases((i + 1) as nat, 64);
                }
            }
            value = 2 * value + if bit { 1 } else { 0 };
            i = i + 1;
        }
        proof {
            assert(bits.subrange(0, n as int) =~= bits);
            bits::lemma_bits_value_bound(bits);
        }
        Some(value)
    }

    /// The value of the next `n` bits, with the cursor left where it is.
    pub fn peek_bits(&self, n: usize) -> (value: Option<u64>)
        requires
            n <= 64,
        ensures
            value == if n <= self@.remaining() {
                Some(self@.value(n as int) as u64)
            } else {
                None
            },
            value matches Some(v) ==> v == self@.value(n as int) && v < pow2(n as nat),
    {
        self.peek_bits_posoffset(0, n)
    }

    /// Read the next `n` bits and move the cursor behind them. `None`, with the cursor left where
    /// it is, if there are fewer.
    pub fn read_bits(&mut self, n: usize) -> (value: Option<u64>)
        requires
            n <= 64,
        ensures
            value == if n <= old(self)@.remaining() {
                Some(old(self)@.value(n as int) as u64)
            } else {
                None
            },
            final(self)@ == if n <= old(self)@.remaining() {
                old(self)@.skip(n as int)
            } else {
                old(self)@
            },
            value matches Some(v) ==> v == old(self)@.value(n as int) && v < pow2(n as nat),
    {
        proof {
            use_type_invariant(&*self);
        }
        let value = self.peek_bits(n);
        if value.is_some() {
            self.pos = self.pos + n;
        }
        value
    }

    /// Read a field of `n` bits. The error names the field.
    pub fn read_field(&mut self, n: usize, name: &'static str) -> (value: Result<u64, PduParseErr>)
        requires
            n <= 64,
        ensures
            (value, final(self)@) == old(self)@.read(n as int, name),
            value matches Ok(v) ==> v == old(self)@.value(n as int) && v < pow2(n as nat),
    {
        match self.read_bits(n) {
            Some(value) => Ok(value),
            None => Err(PduParseErr::BufferEnded { field: Some(name) }),
        }
    }

    /// Write `value` as a field of `n` bits at the cursor, over what stands there, and move the
    /// cursor behind it.
    pub fn write_bits(&mut self, value: u64, n: usize)
        requires
            n <= 64,
            value < pow2(n as nat),
            old(self)@.has_room(n as int),
        ensures
            final(self)@ == old(self)@.write_value(value as nat, n as nat),
    {
        proof {
            use_type_invariant(&*self);
            bits::lemma_value_bits_len(value as nat, n as nat);
        }
        let ghost before = self@;
        let ghost new = bits::value_bits(value as nat, n as nat);
        let mut whole = BitBuffer { data: Vec::new(), pos: 0, autoexpand: false };
        std::mem::swap(self, &mut whole);
        let start: usize = whole.pos;
        let autoexpand: bool = whole.autoexpand;
        let mut data: Vec<bool> = whole.data;
        let mut i: usize = 0;
        while i < n
            invariant
                i <= n <= 64,
                start == before.pos,
                before.well_formed(),
                before.pos + n <= usize::MAX,
                new == bits::value_bits(value as nat, n as nat),
                new.len() == n,
                data@ == before.write(new.subrange(0, i as int)).bits,
            decreases n - i,
        {
            let shift: u64 = (n - 1 - i) as u64;
            let bit: bool = (value >> shift) % 2 == 1;
            proof {
                bits::lemma_value_bits_index(value as nat, n as nat, i as int);
                lemma_u64_shr_is_div(value, shift);
                assert(bit == new[i as int]);
            }
            if start + i < data.len() {
                data.set(start + i, bit);
            } else {
                data.push(bit);
            }
            assert(data@ =~= before.write(new.subrange(0, i + 1)).bits);
            i = i + 1;
        }
        assert(new.subrange(0, n as int) =~= new);
        *self = BitBuffer { data, pos: start + n, autoexpand };
    }

    /// Write one bit, given as 0 or 1.
    pub fn write_bit(&mut self, bit: u8)
        requires
            bit <= 1,
            old(self)@.has_room(1),
        ensures
            final(self)@ == old(self)@.write(seq![bit == 1]),
    {
        proof {
            lemma2_to64();
            reveal_with_fuel(bits::value_bits, 2);
            assert(bits::value_bits(bit as nat, 1) =~= seq![bit == 1]);
        }
        self.write_bits(bit as u64, 1);
    }

    /// All bits of the buffer, wherever the cursor is.
    pub fn to_bitstr(&self) -> (text: String)
        ensures
            text@ == Seq::new(self@.bits.len(), |i: int| char_of_bit(self@.bits[i])),
    {
        let mut text = String::new();
        let mut i: usize = 0;
        while i < self.data.len()
            invariant
                i <= self.data@.len(),
                text@ == Seq::new(i as nat, |j: int| char_of_bit(self.data@[j])),
            decreases self.data@.len() - i,
        {
            proof {
                reveal_strlit("1");
                reveal_strlit("0");
            }
            if self.data[i] {
                text.append("1");
            } else {
                text.append("0");
            }
            assert(text@ =~= Seq::new((i + 1) as nat, |j: int| char_of_bit(self.data@[j])));
            i = i + 1;
        }
        text
    }
}

/// `after` differs from `before` in where the cursor stands, and in nothing else.
pub open spec fn moved(before: BitState, after: BitState, to: int) -> bool {
    &&& after.bits == before.bits
    &&& after.autoexpand == before.autoexpand
    &&& after.pos == to
}

/// Reading a field takes the bits from the cursor on as a number, the most significant bit first,
/// and leaves the cursor behind them; where there are too few of them, nothing is read and the
/// error names the field. Peeking tells the same and leaves the cursor where it is.
pub proof fn law_reading_takes_the_next_bits()
    ensures
        forall|b: &mut BitBuffer, n: usize, name: &'static str, r: Result<u64, PduParseErr>|
            b@.well_formed() && #[trigger] call_ensures(BitBuffer::read_field, (b, n, name), r)
                ==> if b@.pos + n <= b@.bits.len() {
                &&& r matches Ok(v) && v < pow2(n as nat) && bits::holds(
                    b@.bits,
                    b@.pos,
                    n as int,
                    v as nat,
                )
                &&& moved(b@, final(b)@, b@.pos + n)
            } else {
                &&& r == Err::<u64, _>(PduParseErr::BufferEnded { field: Some(name) })
                &&& moved(b@, final(b)@, b@.pos)
            },
        forall|b: &mut BitBuffer, n: usize, r: Option<u64>|
            b@.well_formed() && #[trigger] call_ensures(BitBuffer::read_bits, (b, n), r)
                ==> if b@.pos + n <= b@.bits.len() {
                &&& r matches Some(v) && v < pow2(n as nat) && bits::holds(
                    b@.bits,
                    b@.pos,
                    n as int,
                    v as nat,
                )
                &&& moved(b@, final(b)@, b@.pos + n)
            } else {
                r is None && moved(b@, final(b)@, b@.pos)
            },
        forall|b: BitBuffer, n: usize, r: Option<u64>|
            b@.well_formed() && #[trigger] call_ensures(BitBuffer::peek_bits, (&b, n), r)
                ==> if b@.pos + n <= b@.bits.len() {
                r matches Some(v) && v < pow2(n as nat) && bits::holds(
                    b@.bits,
                    b@.pos,
                    n as int,
                    v as nat,
                )
            } else {
                r is None
            },
        forall|b: BitBuffer, offset: usize, n: usize, r: Option<u64>|
            b@.well_formed() && #[trigger] call_ensures(
                BitBuffer::peek_bits_posoffset,
                (&b, offset, n),
                r,
            ) ==> if b@.pos + offset + n <= b@.bits.len() {
                r matches Some(v) && v < pow2(n as nat) && bits::holds(
                    b@.bits,
                    b@.pos + offset,
                    n as int,
                    v as nat,
                )
            } else {
                r is None
            },
{
    assert forall|s: BitState, from: int, n: int|
        s.well_formed() && 0 <= from && 0 <= n && from + n <= s.bits.len() implies bits::holds(
        s.bits,
        from,
        n,
        #[trigger] bits::bits_value(s.bits.subrange(from, from + n)),
    ) && bits::bits_value(s.bits.subrange(from, from + n)) < pow2(n as nat) by {
        bits::lemma_field_holds_its_number(s.bits, from, n);
    }
}

/// Writing a field puts the binary digits of the number from the cursor on, over what stands there
/// or behind the last bit, and leaves the cursor behind them and every other bit as it was.
pub proof fn law_writing_puts_the_bits_at_the_cursor()
    ensures
        forall|b: &mut BitBuffer, value: u64, n: usize, r: ()|
            b@.well_formed() && #[trigger] call_ensures(BitBuffer::write_bits, (b, value, n), r)
                ==> {
                &&& bits::holds(final(b)@.bits, b@.pos, n as int, value as nat)
                &&& wrote(b@, final(b)@, n as int)
            },
        forall|b: &mut BitBuffer, bit: u8, r: ()|
            b@.well_formed() && #[trigger] call_ensures(BitBuffer::write_bit, (b, bit), r) ==> {
                &&& final(b)@.bits[b@.pos] == (bit == 1)
                &&& wrote(b@, final(b)@, 1)
            },
{
    assert forall|s: BitState, value: nat, n: nat| s.well_formed() implies bits::holds(
        (#[trigger] s.write_value(value, n)).bits,
        s.pos,
        n as int,
        value,
    ) && wrote(s, s.write_value(value, n), n as int) by {
        bits::lemma_value_bits_len(value, n);
        let t = s.write_value(value, n);
        assert(t.bits.subrange(s.pos, s.pos + n) =~= bits::value_bits(value, n));
        bits::lemma_holds(t.bits, s.pos, n as int, value);
    }
}

/// Between `before` and `after`, `n` bits have been written at the cursor: the buffer is as long as
/// it was, or as it takes to hold them, no bit outside them has changed, and the cursor stands
/// behind them.
pub open spec fn wrote(before: BitState, after: BitState, n: int) -> bool {
    &&& after.bits.len() == if before.pos + n <= before.bits.len() {
        before.bits.len() as int
    } else {
        before.pos + n
    }
    &&& forall|i: int|
        0 <= i < before.bits.len() && (i < before.pos || before.pos + n <= i)
            ==> #[trigger] after.bits[i] == before.bits[i]
    &&& after.pos == before.pos + n
    &&& after.autoexpand == before.autoexpand
}

/// What is written is written in the sense of [`wrote`], and stands where the cursor stood.
pub proof fn lemma_write_is_wrote(s: BitState, new: Seq<bool>)
    requires
        s.well_formed(),
    ensures
        wrote(s, s.write(new), new.len() as int),
        s.write(new).bits.subrange(s.pos, s.pos + new.len()) == new,
{
    assert(s.write(new).bits.subrange(s.pos, s.pos + new.len()) =~= new);
}

/// There is room for bits where they fit behind the cursor, or the buffer grows.
pub proof fn law_room_is_what_is_left(s: BitState, n: int)
    requires
        s.well_formed(),
        0 <= n,
        s.pos + n <= usize::MAX,
    ensures
        s.has_room(n) <==> s.autoexpand || s.pos + n <= s.bits.len(),
{
}

/// A buffer made of a text of zeros and ones holds a set bit for each one, and gives the text back;
/// an empty one grows.
pub proof fn law_bit_strings_read_back()
    ensures
        forall|text: &str, b: BitBuffer| #[trigger]
            call_ensures(BitBuffer::from_bitstr, (text,), b) ==> {
                &&& b@.bits.len() == text@.len()
                &&& forall|i: int|
                    0 <= i < text@.len() ==> #[trigger] b@.bits[i] == (text@[i] == '1')
                &&& b@.pos == 0
                &&& !b@.autoexpand
            },
        forall|b: BitBuffer, text: String| #[trigger]
            call_ensures(BitBuffer::to_bitstr, (&b,), text) ==> {
                &&& text@.len() == b@.bits.len()
                &&& forall|i: int|
                    0 <= i < text@.len() ==> #[trigger] text@[i] == (if b@.bits[i] {
                        '1'
                    } else {
                        '0'
                    })
            },
        forall|text: &str, b: BitBuffer, back: String|
            (forall|i: int| 0 <= i < text@.len() ==> #[trigger] text@[i] == '0' || text@[i] == '1')
                && #[trigger] call_ensures(BitBuffer::from_bitstr, (text,), b)
                && #[trigger] call_ensures(BitBuffer::to_bitstr, (&b,), back) ==> back@ == text@,
        forall|capacity: usize, b: BitBuffer| #[trigger]
            call_ensures(BitBuffer::new_autoexpand, (capacity,), b) ==> b@.bits.len() == 0 && b@.pos
                == 0 && b@.autoexpand,
{
    assert forall|text: &str, b: BitBuffer, back: String|
        (forall|i: int| 0 <= i < text@.len() ==> #[trigger] text@[i] == '0' || text@[i] == '1')
            && #[trigger] call_ensures(BitBuffer::from_bitstr, (text,), b) && #[trigger] call_ensures(
            BitBuffer::to_bitstr,
            (&b,),
            back,
        ) implies back@ == text@ by {
        assert(back@ =~= text@);
    }
}

/// Moving the cursor changes nothing but where it stands, and a move that would leave the buffer
/// is refused.
pub proof fn law_the_cursor_moves_within_the_buffer()
    ensures
        forall|b: &mut BitBuffer, n: isize, r: Option<()>| #[trigger]
            call_ensures(BitBuffer::try_seek_rel, (b, n), r) ==> if 0 <= b@.pos + n
                <= b@.bits.len() {
                r is Some && moved(b@, final(b)@, b@.pos + n)
            } else {
                r is None && moved(b@, final(b)@, b@.pos)
            },
        forall|b: &mut BitBuffer, n: isize, r: ()| #[trigger]
            call_ensures(BitBuffer::seek_rel, (b, n), r) ==> moved(b@, final(b)@, b@.pos + n),
        forall|b: &mut BitBuffer, pos: usize, r: ()| #[trigger]
            call_ensures(BitBuffer::set_raw_pos, (b, pos), r) ==> moved(b@, final(b)@, pos as int),
        forall|b: BitBuffer, pos: usize| #[trigger]
            call_ensures(BitBuffer::get_pos, (&b,), pos) ==> pos == b@.pos,
        forall|b: BitBuffer, pos: usize| #[trigger]
            call_ensures(BitBuffer::get_raw_pos, (&b,), pos) ==> pos == b@.pos,
        forall|b: BitBuffer, n: usize| #[trigger]
            call_ensures(BitBuffer::get_len_remaining, (&b,), n) ==> b@.pos + n == b@.bits.len(),
{
}

} // verus!
