//! JSON texts: strings, truth values and `null`, and objects made of them.

use vstd::prelude::*;

use crate::text;

verus! {

/// A character as it stands between the quotes of a JSON string: a quote and a backslash behind a
/// backslash, and a control character by its number.
pub open spec fn escape(c: char) -> Seq<char> {
    if c == '\\' || c == '"' {
        seq!['\\', c]
    } else if (c as int) < 0x20 {
        seq![
            '\\',
            'u',
            '0',
            '0',
            text::hex_char((c as int / 16) as nat),
            text::hex_char((c as int % 16) as nat),
        ]
    } else {
        seq![c]
    }
}

/// A text as it stands between the quotes of a JSON string.
pub open spec fn escaped(text: Seq<char>) -> Seq<char>
    decreases text.len(),
{
    if text.len() == 0 {
        Seq::empty()
    } else {
        escaped(text.drop_last()) + escape(text.last())
    }
}

/// A value of a JSON object.
pub enum Json {
    Text(Seq<char>),
    Bool(bool),
    Null,
}

impl Json {
    /// A text, or `null` where there is none.
    pub open spec fn of(text: Option<Seq<char>>) -> Json {
        match text {
            Some(t) => Json::Text(t),
            None => Json::Null,
        }
    }

    /// The value as it is written.
    pub open spec fn written(self) -> Seq<char> {
        match self {
            Json::Text(t) => "\""@ + escaped(t) + "\""@,
            Json::Bool(true) => "true"@,
            Json::Bool(false) => "false"@,
            Json::Null => "null"@,
        }
    }
}

/// Append a JSON string.
pub fn push_json_text(out: &mut String, text: &str)
    ensures
        final(out)@ == old(out)@ + Json::Text(text@).written(),
{
    let ghost before = out@;
    out.append("\"");
    let escaped_text: String = json_escape(text);
    out.append(escaped_text.as_str());
    out.append("\"");
    assert(out@ =~= before + Json::Text(text@).written());
}

/// Append a JSON truth value.
pub fn push_json_bool(out: &mut String, value: bool)
    ensures
        final(out)@ == old(out)@ + Json::Bool(value).written(),
{
    if value {
        out.append("true");
    } else {
        out.append("false");
    }
}

/// Append a character of a JSON string.
fn push_escaped(out: &mut String, c: char)
    ensures
        final(out)@ == old(out)@ + escape(c),
{
    let ghost before = out@;
    if c == '\\' || c == '"' {
        out.push('\\');
        out.push(c);
        assert(out@ =~= before + seq!['\\', c]);
    } else if ' ' > c {
        let code: u8 = c as u8;
        let (high, low): (char, char) = (
            text::hex_char_of(code / 16),
            text::hex_char_of(code % 16),
        );
        out.push('\\');
        out.push('u');
        out.push('0');
        out.push('0');
        out.push(high);
        out.push(low);
        assert(out@ =~= before + seq!['\\', 'u', '0', '0', high, low]);
    } else {
        out.push(c);
        assert(out@ =~= before + seq![c]);
    }
}

/// Escape a text for a JSON string.
fn json_escape(s: &str) -> (out: String)
    ensures
        out@ == escaped(s@),
{
    let chars: Vec<char> = text::chars_of(s);
    let mut out = String::new();
    let mut i: usize = 0;
    while i < chars.len()
        invariant
            i <= chars@.len(),
            out@ == escaped(chars@.take(i as int)),
        decreases chars@.len() - i,
    {
        let c: char = chars[i];
        proof {
            assert(chars@.take(i + 1).drop_last() =~= chars@.take(i as int));
        }
        push_escaped(&mut out, c);
        i = i + 1;
    }
    assert(chars@.take(i as int) =~= chars@);
    out
}

/// The character that stands for another one behind a backslash.
pub open spec fn short_escape(c: char) -> Option<char> {
    if c == '"' || c == '\\' || c == '/' {
        Some(c)
    } else if c == 'b' {
        Some('\u{8}')
    } else if c == 'f' {
        Some('\u{c}')
    } else if c == 'n' {
        Some('\u{a}')
    } else if c == 'r' {
        Some('\u{d}')
    } else if c == 't' {
        Some('\u{9}')
    } else {
        None
    }
}

/// The character whose number is written in four hexadecimal digits.
pub open spec fn numbered(digits: Seq<char>) -> Option<char> {
    if digits.len() == 4 && text::is_hex(digits) {
        let code = 256 * text::hex_byte(digits[0], digits[1]) + text::hex_byte(
            digits[2],
            digits[3],
        );
        if 0xd800 <= code <= 0xdfff {
            None
        } else {
            Some(code as char)
        }
    } else {
        None
    }
}

/// The first character of what stands between the quotes of a JSON string, and what follows it.
/// A control character cannot stand there, nor a backslash that escapes nothing.
pub open spec fn first_char(json: Seq<char>) -> Option<(char, Seq<char>)> {
    if json.len() == 0 || (json[0] as int) < 0x20 {
        None
    } else if json[0] != '\\' {
        Some((json[0], json.skip(1)))
    } else if json.len() >= 6 && json[1] == 'u' {
        match numbered(json.subrange(2, 6)) {
            Some(c) => Some((c, json.skip(6))),
            None => None,
        }
    } else if json.len() >= 2 {
        match short_escape(json[1]) {
            Some(c) => Some((c, json.skip(2))),
            None => None,
        }
    } else {
        None
    }
}

/// Reading a JSON string from behind its opening quote: the text, and what follows the closing
/// quote.
pub open spec fn unescaped(json: Seq<char>) -> Option<(Seq<char>, Seq<char>)>
    decreases json.len(),
{
    if json.len() > 0 && json[0] == '"' {
        Some((Seq::empty(), json.skip(1)))
    } else {
        match first_char(json) {
            Some((c, rest)) => match unescaped(rest) {
                Some((text, after)) => Some((seq![c] + text, after)),
                None => None,
            },
            None => None,
        }
    }
}

/// `json` starts with `word`.
pub open spec fn starts_with(json: Seq<char>, word: Seq<char>) -> bool {
    word.len() <= json.len() && json.take(word.len() as int) == word
}

/// Reading a JSON value: the value, and what follows it.
pub open spec fn read_value(json: Seq<char>) -> Option<(Json, Seq<char>)> {
    if json.len() > 0 && json[0] == '"' {
        match unescaped(json.skip(1)) {
            Some((text, after)) => Some((Json::Text(text), after)),
            None => None,
        }
    } else if starts_with(json, "true"@) {
        Some((Json::Bool(true), json.skip(4)))
    } else if starts_with(json, "false"@) {
        Some((Json::Bool(false), json.skip(5)))
    } else if starts_with(json, "null"@) {
        Some((Json::Null, json.skip(4)))
    } else {
        None
    }
}

/// Reading one member of a JSON object: its key and its value, and what follows it.
pub open spec fn read_member(json: Seq<char>) -> Option<((Seq<char>, Json), Seq<char>)> {
    if json.len() > 0 && json[0] == '"' {
        match unescaped(json.skip(1)) {
            Some((key, rest)) => if rest.len() > 0 && rest[0] == ':' {
                match read_value(rest.skip(1)) {
                    Some((value, after)) => Some(((key, value), after)),
                    None => None,
                }
            } else {
                None
            },
            None => None,
        }
    } else {
        None
    }
}

/// Reading the members of a JSON object up to its closing brace, behind which nothing stands. `n`
/// bounds their number.
pub open spec fn read_members(json: Seq<char>, n: nat) -> Option<Seq<(Seq<char>, Json)>>
    decreases n,
{
    match read_member(json) {
        Some((member, after)) => if after.len() == 0 {
            None
        } else if after[0] == '}' {
            if after.len() == 1 {
                Some(seq![member])
            } else {
                None
            }
        } else if after[0] == ',' && n > 0 {
            match read_members(after.skip(1), (n - 1) as nat) {
                Some(rest) => Some(seq![member] + rest),
                None => None,
            }
        } else {
            None
        },
        None => None,
    }
}

/// Reading a JSON object that has members: its keys and values, in the order in which they stand.
pub open spec fn read_object(json: Seq<char>) -> Option<Seq<(Seq<char>, Json)>> {
    if json.len() > 0 && json[0] == '{' {
        read_members(json.skip(1), json.len())
    } else {
        None
    }
}

/// Whatever a text holds, reading it as a JSON string gives it back, and ends where it ends: no
/// character in it can break out of the string, or break it.
pub proof fn law_escaped_text_reads_back(text: Seq<char>, after: Seq<char>)
    ensures
        unescaped(escaped(text) + seq!['"'] + after) == Some((text, after)),
    decreases text.len(),
{
    let all = escaped(text) + seq!['"'] + after;
    if text.len() == 0 {
        assert(all.skip(1) =~= after);
        assert(text =~= Seq::empty());
    } else {
        lemma_escaped_first(text);
        let rest = text.drop_first();
        law_escaped_text_reads_back(rest, after);
        let tail = escaped(rest) + seq!['"'] + after;
        assert(all =~= escape(text[0]) + tail);
        lemma_escape_reads_back(text[0], tail);
        assert(all[0] == escape(text[0])[0]);
        assert(text =~= seq![text[0]] + rest);
    }
}

/// An escaped character is read back, and does not start with a quote.
proof fn lemma_escape_reads_back(c: char, after: Seq<char>)
    ensures
        first_char(escape(c) + after) == Some((c, after)),
        escape(c).len() > 0,
        escape(c)[0] != '"',
{
    let all = escape(c) + after;
    if c == '\\' || c == '"' {
        assert(all.skip(2) =~= after);
    } else if (c as int) < 0x20 {
        let (high, low) = ((c as int / 16) as nat, (c as int % 16) as nat);
        text::lemma_hex_char(0);
        text::lemma_hex_char(high);
        text::lemma_hex_char(low);
        let digits = all.subrange(2, 6);
        assert(digits =~= seq!['0', '0', text::hex_char(high), text::hex_char(low)]);
        assert(all.skip(6) =~= after);
    } else {
        assert(all.skip(1) =~= after);
    }
}

/// Escaping works character by character from the front, too.
proof fn lemma_escaped_first(text: Seq<char>)
    requires
        text.len() > 0,
    ensures
        escaped(text) == escape(text[0]) + escaped(text.drop_first()),
    decreases text.len(),
{
    let front = text.drop_first();
    if text.len() == 1 {
        assert(text.drop_last() =~= Seq::empty());
        assert(front =~= Seq::empty());
        reveal_with_fuel(escaped, 2);
    } else {
        lemma_escaped_first(text.drop_last());
        assert(text.drop_last().drop_first() =~= front.drop_last());
        assert(front.last() == text.last());
    }
    assert(escaped(text) =~= escape(text[0]) + escaped(front));
}

/// A value is read back from what was written.
pub proof fn law_value_reads_back(value: Json, after: Seq<char>)
    ensures
        read_value(value.written() + after) == Some((value, after)),
{
    reveal_strlit("\"");
    reveal_strlit("true");
    reveal_strlit("false");
    reveal_strlit("null");
    let all = value.written() + after;
    match value {
        Json::Text(t) => {
            law_escaped_text_reads_back(t, after);
            assert(all.skip(1) =~= escaped(t) + seq!['"'] + after);
        },
        Json::Bool(true) => {
            assert(all.take(4) =~= "true"@);
            assert(all.skip(4) =~= after);
        },
        Json::Bool(false) => {
            assert(all.take(5) =~= "false"@);
            assert(all.skip(5) =~= after);
            assert(all[0] == 'f');
            assert(all.take(4)[0] == 'f');
        },
        Json::Null => {
            assert(all.take(4) =~= "null"@);
            assert(all.skip(4) =~= after);
            assert(all.take(4)[0] == 'n');
            assert(all.len() >= 5 ==> all.take(5)[0] == 'n');
        },
    }
}

/// A member as it is written.
pub open spec fn member(key: Seq<char>, value: Json) -> Seq<char> {
    Json::Text(key).written() + ":"@ + value.written()
}

/// A member is read back from what was written.
pub proof fn law_member_reads_back(key: Seq<char>, value: Json, after: Seq<char>)
    ensures
        read_member(member(key, value) + after) == Some(((key, value), after)),
{
    reveal_strlit("\"");
    reveal_strlit(":");
    let all = member(key, value) + after;
    let rest = ":"@ + value.written() + after;
    law_escaped_text_reads_back(key, rest);
    assert(all.skip(1) =~= escaped(key) + seq!['"'] + rest);
    assert(rest.skip(1) =~= value.written() + after);
    law_value_reads_back(value, after);
}

/// The members of an object as they are written, one behind the other.
pub open spec fn members(all: Seq<(Seq<char>, Json)>) -> Seq<char>
    decreases all.len(),
{
    if all.len() == 0 {
        Seq::empty()
    } else if all.len() == 1 {
        member(all[0].0, all[0].1)
    } else {
        member(all[0].0, all[0].1) + ","@ + members(all.drop_first())
    }
}

/// An object with members is read back from what was written.
pub proof fn law_object_reads_back(all: Seq<(Seq<char>, Json)>)
    requires
        all.len() > 0,
    ensures
        read_object("{"@ + members(all) + "}"@) == Some(all),
{
    reveal_strlit("{");
    reveal_strlit("}");
    let json = "{"@ + members(all) + "}"@;
    assert(json.skip(1) =~= members(all) + "}"@);
    lemma_members_length(all);
    lemma_members_read_back(all, json.len());
}

proof fn lemma_members_length(all: Seq<(Seq<char>, Json)>)
    ensures
        all.len() <= members(all).len(),
    decreases all.len(),
{
    reveal_strlit(":");
    reveal_strlit(",");
    if all.len() > 0 {
        lemma_members_length(all.drop_first());
    }
}

proof fn lemma_members_read_back(all: Seq<(Seq<char>, Json)>, n: nat)
    requires
        0 < all.len() <= n,
    ensures
        read_members(members(all) + "}"@, n) == Some(all),
    decreases all.len(),
{
    reveal_strlit(",");
    reveal_strlit("}");
    let (key, value) = all[0];
    if all.len() == 1 {
        law_member_reads_back(key, value, "}"@);
        assert(all =~= seq![all[0]]);
    } else {
        let rest = all.drop_first();
        let after = ","@ + members(rest) + "}"@;
        assert(members(all) + "}"@ =~= member(key, value) + after);
        law_member_reads_back(key, value, after);
        assert(after.skip(1) =~= members(rest) + "}"@);
        lemma_members_read_back(rest, (n - 1) as nat);
        assert(all =~= seq![all[0]] + rest);
    }
}

/// Members are written from the front as well as from the back.
proof fn lemma_members_push(all: Seq<(Seq<char>, Json)>, key: Seq<char>, value: Json)
    requires
        all.len() > 0,
    ensures
        members(all.push((key, value))) == members(all) + (","@ + member(key, value)),
    decreases all.len(),
{
    let longer = all.push((key, value));
    let rest = all.drop_first();
    assert(longer.drop_first() =~= rest.push((key, value)));
    if all.len() == 1 {
        assert(rest.push((key, value)) =~= seq![(key, value)]);
        assert(members(seq![(key, value)]) == member(key, value));
    } else {
        lemma_members_push(rest, key, value);
    }
    assert(members(longer) =~= members(all) + (","@ + member(key, value)));
}

/// The first member of an object.
pub proof fn lemma_first_member(key: Seq<char>, value: Json, before_value: Seq<char>)
    requires
        before_value == "{"@ + Json::Text(key).written() + ":"@,
    ensures
        before_value + value.written() == "{"@ + members(seq![(key, value)]),
{
    assert(members(seq![(key, value)]) == member(key, value));
    assert(before_value + value.written() =~= "{"@ + member(key, value));
}

/// One more member behind those that an object has so far.
pub proof fn lemma_next_member(
    all: Seq<(Seq<char>, Json)>,
    key: Seq<char>,
    value: Json,
    before_value: Seq<char>,
)
    requires
        all.len() > 0,
        before_value == ","@ + Json::Text(key).written() + ":"@,
    ensures
        "{"@ + members(all) + before_value + value.written() == "{"@ + members(
            all.push((key, value)),
        ),
{
    lemma_members_push(all, key, value);
    assert("{"@ + members(all) + before_value + value.written() =~= "{"@ + (members(all) + (","@
        + member(key, value))));
}

/// A text without quotes, backslashes and control characters needs no escaping.
pub proof fn lemma_plain_text(text: Seq<char>)
    requires
        forall|i: int|
            0 <= i < text.len() ==> text[i] as int >= 0x20 && #[trigger] text[i] != '\\' && text[i]
                != '"',
    ensures
        escaped(text) == text,
    decreases text.len(),
{
    if text.len() > 0 {
        lemma_plain_text(text.drop_last());
        assert(escaped(text) =~= text);
    }
}

/// A character stands for itself in a JSON string, but for a quote and a backslash, which follow a
/// backslash, and for control characters, which are written by their number in four hexadecimal
/// digits.
pub proof fn law_characters_are_escaped(c: char)
    ensures
        c == '"' ==> escape(c) == "\\\""@,
        c == '\\' ==> escape(c) == "\\\\"@,
        (c as int) < 0x20 ==> {
            &&& escape(c).len() == 6
            &&& escape(c).take(4) == "\\u00"@
            &&& text::hex_value(escape(c)[4]) == Some((c as int / 16) as u8)
            &&& text::hex_value(escape(c)[5]) == Some((c as int % 16) as u8)
        },
        c as int >= 0x20 && c != '"' && c != '\\' ==> escape(c).len() == 1 && escape(c)[0] == c,
{
    reveal_strlit("\\\"");
    reveal_strlit("\\\\");
    reveal_strlit("\\u00");
    if c == '"' {
        assert(escape(c) =~= "\\\""@);
    } else if c == '\\' {
        assert(escape(c) =~= "\\\\"@);
    } else if (c as int) < 0x20 {
        assert(escape(c).take(4) =~= "\\u00"@);
        text::lemma_hex_char((c as int / 16) as nat);
        text::lemma_hex_char((c as int % 16) as nat);
    }
}

/// A text is escaped character by character.
pub proof fn law_texts_are_escaped_character_by_character(text: Seq<char>, c: char)
    ensures
        escaped(Seq::empty()) == Seq::<char>::empty(),
        escaped(text.push(c)) == escaped(text) + escape(c),
{
    assert(text.push(c).drop_last() =~= text);
}

/// A text is written between quotes, and truth values and `null` as their words.
pub proof fn law_values_are_written(text: Seq<char>)
    ensures
        Json::Text(text).written() == "\""@ + escaped(text) + "\""@,
        Json::Bool(true).written() == "true"@,
        Json::Bool(false).written() == "false"@,
        Json::Null.written() == "null"@,
        Json::of(None) == Json::Null,
        Json::of(Some(text)) == Json::Text(text),
{
}

/// What is appended of a value is how it is written.
pub proof fn law_written_values_are_appended()
    ensures
        forall|out: &mut String, text: &str, r: ()| #[trigger]
            call_ensures(push_json_text, (out, text), r) ==> final(out)@ == out@ + Json::Text(
                text@,
            ).written(),
        forall|out: &mut String, value: bool, r: ()| #[trigger]
            call_ensures(push_json_bool, (out, value), r) ==> final(out)@ == out@ + Json::Bool(
                value,
            ).written(),
{
}

} // verus!
