//! Text: trimming, numbers in decimal and hexadecimal notation, padding.

use vstd::arithmetic::div_mod::*;
use vstd::arithmetic::power::*;
use vstd::prelude::*;

verus! {

/// `String::push` of the standard library: it appends the character to the string.
pub assume_specification[ String::push ](s: &mut String, c: char)
    ensures
        final(s)@ == old(s)@.push(c),
;

/// The characters of a text, one by one.
pub fn chars_of(text: &str) -> (chars: Vec<char>)
    ensures
        chars@ == text@,
{
    let mut chars: Vec<char> = Vec::new();
    for c in it: text.chars()
        invariant
            it.seq() == text@,
            chars@ == text@.take(it.index() as int),
    {
        chars.push(c);
        assert(chars@ =~= text@.take(it.index() + 1));
    }
    assert(text@.take(text@.len() as int) =~= text@);
    chars
}

/// The text made of the characters from `from` up to `to`.
pub fn text_of(chars: &Vec<char>, from: usize, to: usize) -> (text: String)
    requires
        from <= to <= chars@.len(),
    ensures
        text@ == chars@.subrange(from as int, to as int),
{
    let mut text = String::new();
    let mut i: usize = from;
    while i < to
        invariant
            from <= i <= to <= chars@.len(),
            text@ == chars@.subrange(from as int, i as int),
        decreases to - i,
    {
        text.push(chars[i]);
        assert(text@ =~= chars@.subrange(from as int, i + 1));
        i = i + 1;
    }
    text
}

/// Whether two texts are the same.
pub fn same(a: &str, b: &str) -> (equal: bool)
    ensures
        equal == (a@ == b@),
{
    let x: Vec<char> = chars_of(a);
    let y: Vec<char> = chars_of(b);
    if x.len() != y.len() {
        return false;
    }
    let mut i: usize = 0;
    while i < x.len()
        invariant
            x@ == a@,
            y@ == b@,
            x@.len() == y@.len(),
            i <= x@.len(),
            forall|j: int| 0 <= j < i ==> x@[j] == y@[j],
        decreases x@.len() - i,
    {
        if x[i] != y[i] {
            return false;
        }
        i = i + 1;
    }
    assert(x@ =~= y@);
    true
}

/// The characters with Unicode's `White_Space` property.
pub open spec fn white_space(c: char) -> bool {
    ||| '\u{9}' <= c <= '\u{d}'
    ||| c == ' '
    ||| c == '\u{85}'
    ||| c == '\u{a0}'
    ||| c == '\u{1680}'
    ||| '\u{2000}' <= c <= '\u{200a}'
    ||| c == '\u{2028}'
    ||| c == '\u{2029}'
    ||| c == '\u{202f}'
    ||| c == '\u{205f}'
    ||| c == '\u{3000}'
}

/// Whether a character is white space.
pub fn is_white_space(c: char) -> (white: bool)
    ensures
        white == white_space(c),
{
    ('\u{9}' <= c && c <= '\u{d}') || c == ' ' || c == '\u{85}' || c == '\u{a0}' || c == '\u{1680}'
        || ('\u{2000}' <= c && c <= '\u{200a}') || c == '\u{2028}' || c == '\u{2029}' || c
        == '\u{202f}' || c == '\u{205f}' || c == '\u{3000}'
}

/// A text without the white space that it starts with.
pub open spec fn trimmed_start(text: Seq<char>) -> Seq<char>
    decreases text.len(),
{
    if text.len() > 0 && white_space(text[0]) {
        trimmed_start(text.drop_first())
    } else {
        text
    }
}

/// A text without the white space that it ends with.
pub open spec fn trimmed_end(text: Seq<char>) -> Seq<char>
    decreases text.len(),
{
    if text.len() > 0 && white_space(text.last()) {
        trimmed_end(text.drop_last())
    } else {
        text
    }
}

/// A text without the white space around it.
pub open spec fn trimmed(text: Seq<char>) -> Seq<char> {
    trimmed_end(trimmed_start(text))
}

/// The characters of a text without the white space around it.
pub fn trim(text: &str) -> (chars: Vec<char>)
    ensures
        chars@ == trimmed(text@),
{
    let all: Vec<char> = chars_of(text);
    let mut from: usize = 0;
    assert(all@.skip(0) =~= all@);
    while from < all.len() && is_white_space(all[from])
        invariant
            from <= all@.len(),
            trimmed_start(all@) == trimmed_start(all@.skip(from as int)),
        decreases all@.len() - from,
    {
        assert(all@.skip(from as int).drop_first() =~= all@.skip(from + 1));
        from = from + 1;
    }
    let ghost rest = all@.skip(from as int);
    assert(trimmed_start(all@) == rest);
    let mut to: usize = all.len();
    assert(rest.take(to - from) =~= rest);
    while from < to && is_white_space(all[to - 1])
        invariant
            from <= to <= all@.len(),
            rest == all@.skip(from as int),
            trimmed_end(rest) == trimmed_end(rest.take(to - from)),
        decreases to - from,
    {
        assert(rest.take(to - from).last() == all@[to - 1]);
        assert(rest.take(to - from).drop_last() =~= rest.take(to - from - 1));
        to = to - 1;
    }
    let ghost kept = rest.take(to - from);
    assert(kept.len() > 0 ==> kept.last() == all@[to - 1]);
    assert(trimmed_end(rest) == kept);
    let mut chars: Vec<char> = Vec::new();
    let mut i: usize = from;
    while i < to
        invariant
            from <= i <= to <= all@.len(),
            chars@ == all@.subrange(from as int, i as int),
        decreases to - i,
    {
        chars.push(all[i]);
        assert(chars@ =~= all@.subrange(from as int, i + 1));
        i = i + 1;
    }
    assert(chars@ =~= kept);
    chars
}

/// A trimmed text has no white space at either end, and is left as it is by trimming it again.
pub proof fn law_trimmed_has_no_white_ends(text: Seq<char>)
    ensures
        trimmed(text).len() > 0 ==> !white_space(trimmed(text)[0]) && !white_space(
            trimmed(text).last(),
        ),
        trimmed(trimmed(text)) == trimmed(text),
{
    lemma_trimmed_start(text);
    lemma_trimmed_end(trimmed_start(text));
    let t = trimmed(text);
    if t.len() > 0 {
        assert(t[0] == trimmed_start(text)[0]);
    }
}

proof fn lemma_trimmed_start(text: Seq<char>)
    ensures
        trimmed_start(text).len() > 0 ==> !white_space(trimmed_start(text)[0]),
    decreases text.len(),
{
    if text.len() > 0 && white_space(text[0]) {
        lemma_trimmed_start(text.drop_first());
    }
}

proof fn lemma_trimmed_end(text: Seq<char>)
    ensures
        trimmed_end(text).len() <= text.len(),
        trimmed_end(text) == text.take(trimmed_end(text).len() as int),
        trimmed_end(text).len() > 0 ==> !white_space(trimmed_end(text).last()),
    decreases text.len(),
{
    if text.len() > 0 && white_space(text.last()) {
        lemma_trimmed_end(text.drop_last());
        assert(text.drop_last().take(trimmed_end(text).len() as int) =~= text.take(
            trimmed_end(text).len() as int,
        ));
    } else {
        assert(text.take(text.len() as int) =~= text);
    }
}

/// The decimal digit `d`.
pub open spec fn digit_char(d: nat) -> char {
    ('0' as int + d) as char
}

/// A number in decimal notation, without leading zeros.
pub open spec fn decimal(n: nat) -> Seq<char>
    decreases n,
{
    if n < 10 {
        seq![digit_char(n)]
    } else {
        decimal(n / 10).push(digit_char(n % 10))
    }
}

/// Append a number in decimal notation.
pub fn push_decimal(text: &mut String, n: u128)
    ensures
        final(text)@ == old(text)@ + decimal(n as nat),
    decreases n,
{
    let ghost before = text@;
    if n >= 10 {
        push_decimal(text, n / 10);
    }
    let digit: u8 = (n % 10) as u8;
    text.push((48u8 + digit) as char);
    assert(text@ =~= before + decimal(n as nat));
}

/// `text` filled up with `fill` on the left to at least `width` characters.
pub open spec fn padded(text: Seq<char>, width: int, fill: char) -> Seq<char> {
    if text.len() >= width {
        text
    } else {
        Seq::new((width - text.len()) as nat, |i: int| fill) + text
    }
}

/// Append a number in decimal notation, filled up with `fill` on the left.
pub fn push_padded(text: &mut String, n: u128, width: usize, fill: char)
    ensures
        final(text)@ == old(text)@ + padded(decimal(n as nat), width as int, fill),
{
    let mut number = String::new();
    push_decimal(&mut number, n);
    assert(number@ =~= decimal(n as nat));
    let len: usize = chars_of(number.as_str()).len();
    let ghost before = text@;
    let mut i: usize = len;
    while i < width
        invariant
            len <= i,
            len < width ==> i <= width,
            len >= width ==> i == len,
            text@ == before + Seq::new((i - len) as nat, |j: int| fill),
        decreases width - i,
    {
        text.push(fill);
        assert(text@ =~= before + Seq::new((i + 1 - len) as nat, |j: int| fill));
        i = i + 1;
    }
    text.append(number.as_str());
    assert(text@ =~= before + padded(decimal(n as nat), width as int, fill));
}

/// A value that may be missing, as a log shows it.
pub open spec fn option_text(value: Option<Seq<char>>) -> Seq<char> {
    match value {
        Some(text) => "Some("@ + text + ")"@,
        None => "None"@,
    }
}

/// A number that may be missing, as a log shows it.
pub open spec fn option_number(value: Option<u128>) -> Seq<char> {
    option_text(
        match value {
            Some(n) => Some(decimal(n as nat)),
            None => None,
        },
    )
}

/// A truth value that may be missing, as a log shows it.
pub open spec fn option_bool(value: Option<bool>) -> Seq<char> {
    option_text(
        match value {
            Some(true) => Some("true"@),
            Some(false) => Some("false"@),
            None => None,
        },
    )
}

/// Append a number that may be missing.
pub fn push_option_number(text: &mut String, value: Option<u128>)
    ensures
        final(text)@ == old(text)@ + option_number(value),
{
    let ghost before = text@;
    match value {
        Some(n) => {
            text.append("Some(");
            push_decimal(text, n);
            text.append(")");
        },
        None => {
            text.append("None");
        },
    }
    assert(text@ =~= before + option_number(value));
}

/// Append a truth value that may be missing.
pub fn push_option_bool(text: &mut String, value: Option<bool>)
    ensures
        final(text)@ == old(text)@ + option_bool(value),
{
    let ghost before = text@;
    match value {
        Some(b) => {
            text.append("Some(");
            if b {
                text.append("true");
            } else {
                text.append("false");
            }
            text.append(")");
        },
        None => {
            text.append("None");
        },
    }
    assert(text@ =~= before + option_bool(value));
}

/// A decimal digit.
pub open spec fn is_digit(c: char) -> bool {
    '0' <= c <= '9'
}

/// The number that a row of decimal digits stands for.
pub open spec fn digits_value(digits: Seq<char>) -> nat
    decreases digits.len(),
{
    if digits.len() == 0 {
        0
    } else {
        10 * digits_value(digits.drop_last()) + (digits.last() as int - '0' as int) as nat
    }
}

/// `digits` consists of decimal digits, of which there is one at least.
pub open spec fn is_number(digits: Seq<char>) -> bool {
    digits.len() > 0 && forall|i: int| 0 <= i < digits.len() ==> is_digit(#[trigger] digits[i])
}

/// The unsigned number of 32 bits that `text` stands for: decimal digits, with a plus sign before
/// them or not.
pub open spec fn number_of(text: Seq<char>) -> Option<u32> {
    let digits = if text.len() > 0 && text[0] == '+' {
        text.drop_first()
    } else {
        text
    };
    if is_number(digits) && digits_value(digits) <= u32::MAX {
        Some(digits_value(digits) as u32)
    } else {
        None
    }
}

/// Read a text as an unsigned number of 32 bits.
pub fn parse_u32(text: &Vec<char>) -> (number: Option<u32>)
    ensures
        number == number_of(text@),
{
    let from: usize = if text.len() > 0 && text[0] == '+' { 1 } else { 0 };
    let ghost digits = text@.skip(from as int);
    proof {
        if from == 1 {
            assert(digits =~= text@.drop_first());
        } else {
            assert(digits =~= text@);
        }
    }
    if from == text.len() {
        return None;
    }
    let mut value: u32 = 0;
    let mut i: usize = from;
    while i < text.len()
        invariant
            from <= i <= text@.len(),
            from < text@.len(),
            digits == text@.skip(from as int),
            number_of(text@) == if is_number(digits) && digits_value(digits) <= u32::MAX {
                Some(digits_value(digits) as u32)
            } else {
                None
            },
            value == digits_value(digits.take(i - from)),
            forall|j: int| 0 <= j < i - from ==> is_digit(#[trigger] digits[j]),
        decreases text@.len() - i,
    {
        let c: char = text[i];
        assert(c == digits[i - from]);
        if c < '0' || c > '9' {
            return None;
        }
        let digit: u32 = c as u32 - 48;
        proof {
            let more = digits.take(i + 1 - from);
            assert(more.drop_last() =~= digits.take(i - from));
            lemma_digits_value_grows(digits, i + 1 - from);
        }
        if value > 429_496_729 || (value == 429_496_729 && digit > 5) {
            return None;
        }
        value = 10 * value + digit;
        i = i + 1;
    }
    assert(digits.take(digits.len() as int) =~= digits);
    Some(value)
}

/// More digits stand for a number that is not smaller.
proof fn lemma_digits_value_grows(digits: Seq<char>, n: int)
    requires
        0 <= n <= digits.len(),
    ensures
        digits_value(digits.take(n)) <= digits_value(digits),
    decreases digits.len() - n,
{
    if n < digits.len() {
        assert(digits.take(n + 1).drop_last() =~= digits.take(n));
        lemma_digits_value_grows(digits, n + 1);
    } else {
        assert(digits.take(n) =~= digits);
    }
}

/// A number in decimal notation is read as itself.
pub proof fn law_decimal_read_back(n: u32)
    ensures
        number_of(decimal(n as nat)) == Some(n),
{
    lemma_decimal_digits(n as nat);
    assert(decimal(n as nat)[0] != '+');
}

proof fn lemma_decimal_digits(n: nat)
    ensures
        is_number(decimal(n)),
        digits_value(decimal(n)) == n,
    decreases n,
{
    reveal_with_fuel(digits_value, 2);
    if n < 10 {
        assert(decimal(n).drop_last() =~= Seq::<char>::empty());
    } else {
        lemma_decimal_digits(n / 10);
        assert(decimal(n).drop_last() =~= decimal(n / 10));
    }
}

/// The value of a hexadecimal digit, in either case.
pub open spec fn hex_value(c: char) -> Option<u8> {
    if '0' <= c <= '9' {
        Some((c as int - '0' as int) as u8)
    } else if 'a' <= c <= 'f' {
        Some((c as int - 'a' as int + 10) as u8)
    } else if 'A' <= c <= 'F' {
        Some((c as int - 'A' as int + 10) as u8)
    } else {
        None
    }
}

/// `text` consists of hexadecimal digits alone.
pub open spec fn is_hex(text: Seq<char>) -> bool {
    forall|i: int| 0 <= i < text.len() ==> hex_value(#[trigger] text[i]) is Some
}

/// The byte that two hexadecimal digits stand for.
pub open spec fn hex_byte(high: char, low: char) -> u8 {
    (16 * hex_value(high).unwrap() + hex_value(low).unwrap()) as u8
}

/// Read a hexadecimal digit.
pub fn hex_digit(c: char) -> (value: Option<u8>)
    ensures
        value == hex_value(c),
        value matches Some(v) ==> v < 16,
{
    if '0' <= c && c <= '9' {
        Some((c as u32 - 48) as u8)
    } else if 'a' <= c && c <= 'f' {
        Some((c as u32 - 87) as u8)
    } else if 'A' <= c && c <= 'F' {
        Some((c as u32 - 55) as u8)
    } else {
        None
    }
}

/// The hexadecimal digit `d`.
pub open spec fn hex_char(d: nat) -> char {
    if d < 10 {
        digit_char(d)
    } else {
        ('a' as int + d - 10) as char
    }
}

/// The hexadecimal digit `d`.
pub fn hex_char_of(d: u8) -> (c: char)
    requires
        d < 16,
    ensures
        c == hex_char(d as nat),
{
    if d < 10 {
        (48u8 + d) as char
    } else {
        (87u8 + d) as char
    }
}

/// A hexadecimal digit has its own value.
pub proof fn lemma_hex_char(d: nat)
    requires
        d < 16,
    ensures
        hex_value(hex_char(d)) == Some(d as u8),
{
}

/// A character with ASCII capitals turned into small letters.
pub open spec fn lower_char(c: char) -> char {
    if 'A' <= c <= 'Z' {
        (c as int + 32) as char
    } else {
        c
    }
}

/// A text with ASCII capitals turned into small letters.
pub open spec fn lower(text: Seq<char>) -> Seq<char> {
    text.map_values(|c: char| lower_char(c))
}

/// Turn ASCII capitals into small letters.
pub fn to_lower(chars: &Vec<char>) -> (text: String)
    ensures
        text@ == lower(chars@),
{
    let mut text = String::new();
    let mut i: usize = 0;
    while i < chars.len()
        invariant
            i <= chars@.len(),
            text@ == lower(chars@.take(i as int)),
        decreases chars@.len() - i,
    {
        let c: char = chars[i];
        if 'A' <= c && c <= 'Z' {
            text.push((c as u8 + 32) as char);
        } else {
            text.push(c);
        }
        assert(text@ =~= lower(chars@.take(i + 1)));
        i = i + 1;
    }
    assert(chars@.take(i as int) =~= chars@);
    text
}

/// Trimming takes a stretch out of the text: what is left before it and behind it is white space
/// alone, and it neither starts nor ends with any.
pub proof fn law_trimming_takes_what_is_between_white_space()
    ensures
        forall|text: &str, chars: Vec<char>| #[trigger]
            call_ensures(trim, (text,), chars) ==> exists|from: int, to: int|
                #![trigger text@.subrange(from, to)]
                {
                    &&& 0 <= from <= to <= text@.len()
                    &&& chars@ == text@.subrange(from, to)
                    &&& forall|i: int|
                        0 <= i < from || to <= i < text@.len() ==> white_space(#[trigger] text@[i])
                    &&& from < to ==> !white_space(text@[from]) && !white_space(text@[to - 1])
                },
{
    assert forall|text: &str, chars: Vec<char>| #[trigger]
        call_ensures(trim, (text,), chars) implies exists|from: int, to: int|
        #![trigger text@.subrange(from, to)]
        {
            &&& 0 <= from <= to <= text@.len()
            &&& chars@ == text@.subrange(from, to)
            &&& forall|i: int|
                0 <= i < from || to <= i < text@.len() ==> white_space(#[trigger] text@[i])
            &&& from < to ==> !white_space(text@[from]) && !white_space(text@[to - 1])
        } by {
        law_trimmed_is_between_white_space(text@);
        let (from, to) = choose|from: int, to: int|
            #![trigger text@.subrange(from, to)]
            {
                &&& 0 <= from <= to <= text@.len()
                &&& trimmed(text@) == text@.subrange(from, to)
                &&& forall|i: int|
                    0 <= i < from || to <= i < text@.len() ==> white_space(#[trigger] text@[i])
                &&& from < to ==> !white_space(text@[from]) && !white_space(text@[to - 1])
            };
        assert(chars@ == text@.subrange(from, to));
    }
}

/// A trimmed text is the stretch of the text between the white space at its ends.
pub proof fn law_trimmed_is_between_white_space(text: Seq<char>)
    ensures
        exists|from: int, to: int|
            #![trigger text.subrange(from, to)]
            {
                &&& 0 <= from <= to <= text.len()
                &&& trimmed(text) == text.subrange(from, to)
                &&& forall|i: int|
                    0 <= i < from || to <= i < text.len() ==> white_space(#[trigger] text[i])
                &&& from < to ==> !white_space(text[from]) && !white_space(text[to - 1])
            },
{
    lemma_trimmed_start_skips(text);
    let rest = trimmed_start(text);
    lemma_trimmed_start(text);
    lemma_trimmed_end(rest);
    lemma_trimmed_end_drops(rest);
    let from = text.len() - rest.len();
    let to = from + trimmed_end(rest).len();
    assert(trimmed(text) =~= text.subrange(from, to));
    assert forall|i: int| 0 <= i < from || to <= i < text.len() implies white_space(
        #[trigger] text[i],
    ) by {
        if i >= to {
            assert(rest[i - from] == text[i]);
        }
    }
    if from < to {
        assert(text[from] == rest[0]);
        assert(text[to - 1] == trimmed_end(rest).last());
    }
}

proof fn lemma_trimmed_start_skips(text: Seq<char>)
    ensures
        trimmed_start(text).len() <= text.len(),
        trimmed_start(text) == text.skip(text.len() - trimmed_start(text).len()),
        forall|i: int|
            0 <= i < text.len() - trimmed_start(text).len() ==> white_space(#[trigger] text[i]),
    decreases text.len(),
{
    if text.len() > 0 && white_space(text[0]) {
        let rest = text.drop_first();
        lemma_trimmed_start_skips(rest);
        let n = text.len() - trimmed_start(text).len();
        assert(text.skip(n) =~= rest.skip(n - 1));
        assert forall|i: int| 0 <= i < n implies white_space(#[trigger] text[i]) by {
            if i > 0 {
                assert(text[i] == rest[i - 1]);
            }
        }
    } else {
        assert(text.skip(0) =~= text);
    }
}

proof fn lemma_trimmed_end_drops(text: Seq<char>)
    ensures
        forall|i: int|
            trimmed_end(text).len() <= i < text.len() ==> white_space(#[trigger] text[i]),
    decreases text.len(),
{
    if text.len() > 0 && white_space(text.last()) {
        let rest = text.drop_last();
        lemma_trimmed_end_drops(rest);
        assert forall|i: int| trimmed_end(text).len() <= i < text.len() implies white_space(
            #[trigger] text[i],
        ) by {
            if i < rest.len() {
                assert(text[i] == rest[i]);
            }
        }
    }
}

/// `digits` are the decimal digits of `n`, with zeros before them or not.
pub open spec fn spells(digits: Seq<char>, n: int) -> bool {
    &&& 0 <= n < pow(10, digits.len())
    &&& forall|j: int|
        0 <= j < digits.len() ==> #[trigger] digits[j] as int == 48 + n / pow(
            10,
            (digits.len() - 1 - j) as nat,
        ) % 10
}

/// One more digit stands at the place of ones, and moves every other one up by one place.
proof fn lemma_spells_more(digits: Seq<char>, n: int, c: char)
    ensures
        spells(digits.push(c), n) <==> 0 <= n && spells(digits, n / 10) && c as int == 48 + n % 10,
{
    let all = digits.push(c);
    let len = digits.len();
    reveal(pow);
    lemma_pow_positive(10, len);
    assert(pow(10, (len + 1) as nat) == 10 * pow(10, len));
    assert(n / pow(10, 0) % 10 == n % 10);
    if n >= 0 {
        assert(n < 10 * pow(10, len) <==> n / 10 < pow(10, len));
        assert forall|j: int| 0 <= j < len implies n / pow(10, (len - j) as nat) == (n / 10) / pow(
            10,
            #[trigger] (len - 1 - j) as nat,
        ) by {
            let k = (len - 1 - j) as nat;
            assert((len - j) as nat == k + 1);
            lemma_pow_positive(10, k);
            lemma_div_denominator(n, 10, pow(10, k));
        }
        if spells(digits, n / 10) && c as int == 48 + n % 10 {
            assert forall|j: int| 0 <= j < all.len() implies #[trigger] all[j] as int == 48 + n
                / pow(10, (all.len() - 1 - j) as nat) % 10 by {
                if j < len {
                    assert(all[j] == digits[j]);
                    assert((len - 1 - j) as nat == (len - 1 - j) as nat);
                    assert((all.len() - 1 - j) as nat == (len - j) as nat);
                }
            }
        }
        if spells(all, n) {
            assert(all[len as int] == c);
            assert((all.len() - 1 - len) as nat == 0);
            assert forall|j: int| 0 <= j < len implies #[trigger] digits[j] as int == 48 + (n / 10)
                / pow(10, (len - 1 - j) as nat) % 10 by {
                assert(all[j] == digits[j]);
                assert((len - 1 - j) as nat == (len - 1 - j) as nat);
                assert((all.len() - 1 - j) as nat == (len - j) as nat);
            }
        }
    }
}

/// The number of a row of decimal digits is the one number that they spell.
proof fn lemma_digits_spell_their_value(digits: Seq<char>, n: int)
    requires
        forall|i: int| 0 <= i < digits.len() ==> is_digit(#[trigger] digits[i]),
    ensures
        spells(digits, n) <==> n == digits_value(digits),
    decreases digits.len(),
{
    reveal(pow);
    if digits.len() > 0 {
        let front = digits.drop_last();
        let c = digits.last();
        assert(front.push(c) =~= digits);
        lemma_spells_more(front, n, c);
        assert forall|i: int| 0 <= i < front.len() implies is_digit(#[trigger] front[i]) by {
            assert(front[i] == digits[i]);
        }
        lemma_digits_spell_their_value(front, n / 10);
        assert(is_digit(digits[digits.len() - 1]));
    }
}

/// A text stands for a number exactly where it spells it: decimal digits and nothing else, one at
/// least, behind a plus sign or not. What spells no number of 32 bits stands for none.
pub proof fn law_a_text_stands_for_the_number_it_spells(text: Seq<char>, n: u32)
    ensures
        number_of(text) == Some(n) <==> {
            let digits = if text.len() > 0 && text[0] == '+' {
                text.skip(1)
            } else {
                text
            };
            digits.len() > 0 && spells(digits, n as int)
        },
        forall|chars: Vec<char>, r: Option<u32>| #[trigger]
            call_ensures(parse_u32, (&chars,), r) ==> r == number_of(chars@),
{
    let digits = if text.len() > 0 && text[0] == '+' {
        text.skip(1)
    } else {
        text
    };
    if text.len() > 0 && text[0] == '+' {
        assert(text.skip(1) =~= text.drop_first());
    }
    if spells(digits, n as int) {
        assert forall|i: int| 0 <= i < digits.len() implies is_digit(#[trigger] digits[i]) by {
            let p = pow(10, (digits.len() - 1 - i) as nat);
            assert(0 <= n as int / p % 10 < 10);
        }
        lemma_digits_spell_their_value(digits, n as int);
    }
    if is_number(digits) {
        lemma_digits_spell_their_value(digits, n as int);
    }
}

/// A number is written by the decimal digits that spell it, without zeros before them.
pub proof fn law_decimal_spells_the_number(n: nat)
    ensures
        decimal(n).len() > 0,
        spells(decimal(n), n as int),
        decimal(n).len() > 1 ==> decimal(n)[0] != '0',
        forall|text: &mut String, m: u128, r: ()| #[trigger]
            call_ensures(push_decimal, (text, m), r) ==> final(text)@ == text@ + decimal(m as nat),
{
    lemma_decimal_digits(n);
    lemma_digits_spell_their_value(decimal(n), n as int);
    lemma_decimal_has_no_leading_zero(n);
}

proof fn lemma_decimal_has_no_leading_zero(n: nat)
    ensures
        decimal(n).len() > 0,
        n > 0 ==> decimal(n)[0] != '0',
        n < 10 <==> decimal(n).len() == 1,
    decreases n,
{
    if n >= 10 {
        lemma_decimal_has_no_leading_zero(n / 10);
        assert(decimal(n)[0] == decimal(n / 10)[0]);
    }
}

/// A padded number takes up the width asked for, or as much as its digits need, and is made of the
/// filling and its digits.
pub proof fn law_padding_fills_up_on_the_left()
    ensures
        forall|text: &mut String, n: u128, width: usize, fill: char, r: ()| #[trigger]
            call_ensures(push_padded, (text, n, width, fill), r) ==> {
                let added = final(text)@.skip(text@.len() as int);
                let digits = decimal(n as nat);
                &&& final(text)@ == text@ + added
                &&& added.len() == if digits.len() < width {
                    width as nat
                } else {
                    digits.len()
                }
                &&& added.skip(added.len() - digits.len()) == digits
                &&& forall|i: int|
                    0 <= i < added.len() - digits.len() ==> #[trigger] added[i] == fill
            },
{
    assert forall|text: &mut String, n: u128, width: usize, fill: char, r: ()| #[trigger]
        call_ensures(push_padded, (text, n, width, fill), r) implies {
        let added = final(text)@.skip(text@.len() as int);
        let digits = decimal(n as nat);
        &&& final(text)@ == text@ + added
        &&& added.len() == if digits.len() < width {
            width as nat
        } else {
            digits.len()
        }
        &&& added.skip(added.len() - digits.len()) == digits
        &&& forall|i: int| 0 <= i < added.len() - digits.len() ==> #[trigger] added[i] == fill
    } by {
        let added = final(text)@.skip(text@.len() as int);
        let digits = decimal(n as nat);
        assert(added =~= padded(digits, width as int, fill));
        assert(final(text)@ =~= text@ + added);
        assert(added.skip(added.len() - digits.len()) =~= digits);
    }
}

/// A hexadecimal digit has the value of its place among the sixteen, in either case, and no other
/// character has one. Writing takes the small ones.
pub proof fn law_hex_digits_have_the_value_of_their_place(c: char, v: u8)
    ensures
        hex_value(c) == Some(v) <==> v < 16 && ("0123456789abcdef"@[v as int] == c
            || "0123456789ABCDEF"@[v as int] == c),
        v < 16 ==> hex_char(v as nat) == "0123456789abcdef"@[v as int],
        forall|d: char, r: Option<u8>| #[trigger]
            call_ensures(hex_digit, (d,), r) ==> r == hex_value(d),
{
    reveal_strlit("0123456789abcdef");
    reveal_strlit("0123456789ABCDEF");
}

/// Two hexadecimal digits stand for the byte whose halves they are.
pub proof fn law_hex_bytes_have_two_halves(high: char, low: char)
    requires
        hex_value(high) is Some,
        hex_value(low) is Some,
    ensures
        hex_value(high) == Some((hex_byte(high, low) / 16) as u8),
        hex_value(low) == Some((hex_byte(high, low) % 16) as u8),
{
}

/// Turning capitals into small letters changes the letters from A to Z into those from a to z, and
/// nothing else.
pub proof fn law_small_letters_take_the_place_of_capitals()
    ensures
        forall|chars: Vec<char>, text: String| #[trigger]
            call_ensures(to_lower, (&chars,), text) ==> {
                &&& text@ == lower(chars@)
                &&& text@.len() == chars@.len()
                &&& forall|i: int|
                    0 <= i < text@.len() ==> #[trigger] text@[i] as int == chars@[i] as int + if 'A'
                        <= chars@[i] <= 'Z' {
                        32int
                    } else {
                        0int
                    }
            },
{
}

/// A value that may be missing is shown as such, or as the value that is there.
pub proof fn law_missing_values_are_shown_as_missing(n: u128)
    ensures
        option_number(None) == "None"@,
        option_number(Some(n)) == "Some("@ + decimal(n as nat) + ")"@,
        option_bool(None) == "None"@,
        option_bool(Some(true)) == "Some(true)"@,
        option_bool(Some(false)) == "Some(false)"@,
{
    reveal_strlit("Some(");
    reveal_strlit(")");
    reveal_strlit("true");
    reveal_strlit("false");
    reveal_strlit("Some(true)");
    reveal_strlit("Some(false)");
    assert(option_bool(Some(true)) =~= "Some(true)"@);
    assert(option_bool(Some(false)) =~= "Some(false)"@);
}

/// White space is what Unicode says it is: tab to carriage return, space, next line, no-break space,
/// and the spaces and separators further on.
pub proof fn law_white_space_is_what_unicode_says(c: char, white: bool)
    requires
        call_ensures(is_white_space, (c,), white),
    ensures
        white == white_space(c),
        (c as int) < 0x80 ==> (white <==> 9 <= c as int <= 13 || c as int == 32),
        c as int >= 0x80 ==> (white <==> c as int == 0x85 || c as int == 0xa0 || c as int == 0x1680
            || 0x2000 <= c as int <= 0x200a || c as int == 0x2028 || c as int == 0x2029 || c as int
            == 0x202f || c as int == 0x205f || c as int == 0x3000),
{
}

/// Texts are compared, taken apart and put together character by character.
pub proof fn law_texts_are_their_characters(a: &str, b: &str, equal: bool, chars: Vec<char>)
    requires
        call_ensures(same, (a, b), equal),
        call_ensures(chars_of, (a,), chars),
    ensures
        equal ==> a@.len() == b@.len() && forall|i: int| 0 <= i < a@.len() ==> #[trigger] a@[i] == b@[i],
        a@.len() == b@.len() && (forall|i: int| 0 <= i < a@.len() ==> #[trigger] a@[i] == b@[i])
            ==> equal,
        chars@.len() == a@.len(),
        forall|i: int| 0 <= i < chars@.len() ==> #[trigger] chars@[i] == a@[i],
        forall|from: usize, to: usize, part: String|
            from <= to <= chars@.len() && #[trigger] call_ensures(text_of, (&chars, from, to), part)
                ==> part@.len() == to - from && forall|i: int|
                0 <= i < part@.len() ==> #[trigger] part@[i] == a@[from + i],
{
    if a@.len() == b@.len() && (forall|i: int| 0 <= i < a@.len() ==> #[trigger] a@[i] == b@[i]) {
        assert(a@ =~= b@);
    }
}

/// What is appended of a value that may be missing is how it is shown.
pub proof fn law_shown_values_are_appended()
    ensures
        forall|t: &mut String, v: Option<u128>, r: ()| #[trigger]
            call_ensures(push_option_number, (t, v), r) ==> final(t)@ == t@ + option_number(v),
        forall|t: &mut String, v: Option<bool>, r: ()| #[trigger]
            call_ensures(push_option_bool, (t, v), r) ==> final(t)@ == t@ + option_bool(v),
        forall|d: u8, c: char| #[trigger]
            call_ensures(hex_char_of, (d,), c) && d < 16 ==> hex_value(c) == Some(d),
{
}

} // verus!
