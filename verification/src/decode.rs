//! From the value of a property, as it was written, to the text it means.

use crate::card::{spec_param, Property, PropertyModel};
use crate::outside::{digit_value, is_number, number_value, read_number, without_plus};
use crate::text::{chars_of, count, eq_ignore_case, spec_eq_ignore_case, string_between, texts};
use vstd::prelude::*;
use vstd::utf8::{
    decode_utf8, encode_utf8, encode_utf8_decode_utf8, is_ascii_chars, valid_utf8,
};

verus! {

/// Bytes read as Latin-1: each is the character with its number.
pub open spec fn latin1(bytes: Seq<u8>) -> Seq<char> {
    bytes.map_values(|b: u8| b as char)
}

/// Whether every character of a text is a Latin-1 character.
pub open spec fn fits_latin1(s: Seq<char>) -> bool {
    forall|i: int| 0 <= i < s.len() ==> #[trigger] s[i] as u32 <= 0xFF
}

/// A text written as Latin-1.
pub open spec fn latin1_bytes(s: Seq<char>) -> Seq<u8> {
    s.map_values(|c: char| c as u8)
}

/// The byte that two hexadecimal digits give.
pub open spec fn hex_byte(a: char, b: char) -> Option<u8> {
    if digit_value(a) < 16 && digit_value(b) < 16 {
        Some((digit_value(a) * 16 + digit_value(b)) as u8)
    } else {
        None
    }
}

/// The bytes that a quoted-printable text stands for. An equals sign with two
/// hexadecimal digits is one byte, and with two other characters it is kept
/// as it stands. Before a CRLF, or together with a line feed and one character
/// more, it is a soft line break and stands for nothing, and so does one that
/// is followed by less than two characters. Any other character stands for its
/// UTF-8 bytes.
pub open spec fn qp_bytes(s: Seq<char>) -> Seq<u8>
    decreases s.len(),
{
    if s.len() == 0 {
        Seq::empty()
    } else if s[0] != '=' {
        encode_utf8(seq![s[0]]) + qp_bytes(s.skip(1))
    } else if s.len() < 3 {
        Seq::empty()
    } else if s[1] == '\n' || s[1] == '\r' && s[2] == '\n' {
        qp_bytes(s.skip(3))
    } else {
        match hex_byte(s[1], s[2]) {
            Some(b) => seq![b] + qp_bytes(s.skip(3)),
            None => encode_utf8(s.take(3)) + qp_bytes(s.skip(3)),
        }
    }
}

/// The text of a run of bytes: UTF-8 where they are that, else Latin-1.
pub open spec fn text_of_bytes(bytes: Seq<u8>) -> Seq<char> {
    if valid_utf8(bytes) {
        decode_utf8(bytes)
    } else {
        latin1(bytes)
    }
}

/// The text that a quoted-printable text stands for.
pub open spec fn spec_decode_quoted_printable(s: Seq<char>) -> Seq<char> {
    text_of_bytes(qp_bytes(s))
}

fn push_utf8(out: &mut Vec<u8>, s: &str)
    ensures
        final(out)@ == old(out)@ + encode_utf8(s@),
{
    let bytes = s.as_bytes();
    let ghost before = out@;
    let mut i: usize = 0;
    while i < bytes.len()
        invariant
            bytes@ == encode_utf8(s@),
            i <= bytes.len(),
            out@ == before + bytes@.take(i as int),
        decreases bytes.len() - i,
    {
        out.push(bytes[i]);
        assert(bytes@.take(i + 1) =~= bytes@.take(i as int).push(bytes@[i as int]));
        i = i + 1;
        assert(out@ =~= before + bytes@.take(i as int));
    }
    assert(bytes@.take(bytes@.len() as int) =~= bytes@);
}

fn latin1_text(bytes: &Vec<u8>) -> (out: String)
    ensures
        out@ == latin1(bytes@),
{
    let mut out = String::new();
    let mut i: usize = 0;
    while i < bytes.len()
        invariant
            i <= bytes.len(),
            out@ == latin1(bytes@).take(i as int),
        decreases bytes.len() - i,
    {
        out.push(bytes[i] as char);
        i = i + 1;
        assert(out@ =~= latin1(bytes@).take(i as int));
    }
    assert(latin1(bytes@).take(bytes@.len() as int) =~= latin1(bytes@));
    out
}

proof fn lemma_hex_pair(a: char, b: char)
    requires
        a != '+',
    ensures
        read_number(seq![a, b], 16) == (if digit_value(a) < 16 && digit_value(b) < 16 {
            Some(digit_value(a) * 16 + digit_value(b))
        } else {
            None
        }),
{
    let s = seq![a, b];
    reveal_with_fuel(number_value, 3);
    assert(without_plus(s) == s);
    assert(s.last() == b);
    assert(s.drop_last().last() == a);
    assert(s.drop_last().drop_last().len() == 0);
    if digit_value(a) < 16 && digit_value(b) < 16 {
        assert(is_number(s, 16));
    } else {
        assert(digit_value(s[0]) >= 16 || digit_value(s[1]) >= 16);
    }
}

fn read_hex(a: char, b: char) -> (out: Option<u8>)
    ensures
        out == hex_byte(a, b),
{
    if a == '+' {
        return None;
    }
    let mut hex = String::new();
    hex.push(a);
    hex.push(b);
    assert(hex@ =~= seq![a, b]);
    proof {
        lemma_hex_pair(a, b);
    }
    match u8::from_str_radix(&hex, 16) {
        Ok(n) => Some(n),
        Err(_) => None,
    }
}

/// Decode quoted-printable encoding (RFC 2045, section 6.7).
pub fn decode_quoted_printable(s: &str) -> (out: String)
    ensures
        out@ == spec_decode_quoted_printable(s@),
{
    let chars = chars_of(s);
    let ghost model = s@;
    let mut bytes: Vec<u8> = Vec::new();
    let mut i: usize = 0;
    assert(model.skip(0) =~= model);
    while i < chars.len()
        invariant
            chars@ == model,
            i <= chars.len(),
            qp_bytes(model) == bytes@ + qp_bytes(model.skip(i as int)),
        decreases chars.len() - i,
    {
        let ghost rest = model.skip(i as int);
        let ghost before = bytes@;
        if chars[i] != '=' {
            let mut one = String::new();
            one.push(chars[i]);
            assert(one@ =~= seq![rest[0]]);
            push_utf8(&mut bytes, &one);
            assert(rest.skip(1) =~= model.skip(i + 1));
            assert(before + (encode_utf8(seq![rest[0]]) + qp_bytes(model.skip(i + 1))) =~= bytes@
                + qp_bytes(model.skip(i + 1)));
            i = i + 1;
        } else if chars.len() - i < 3 {
            assert(model.skip(model.len() as int) =~= Seq::<char>::empty());
            i = chars.len();
        } else {
            assert(rest.skip(3) =~= model.skip(i + 3));
            if chars[i + 1] != '\n' && !(chars[i + 1] == '\r' && chars[i + 2] == '\n') {
                match read_hex(chars[i + 1], chars[i + 2]) {
                    Some(b) => {
                        bytes.push(b);
                        assert(before + (seq![b] + qp_bytes(model.skip(i + 3))) =~= bytes@
                            + qp_bytes(model.skip(i + 3)));
                    },
                    None => {
                        let mut kept = String::new();
                        kept.push('=');
                        kept.push(chars[i + 1]);
                        kept.push(chars[i + 2]);
                        assert(kept@ =~= rest.take(3));
                        push_utf8(&mut bytes, &kept);
                        assert(before + (encode_utf8(rest.take(3)) + qp_bytes(model.skip(i + 3)))
                            =~= bytes@ + qp_bytes(model.skip(i + 3)));
                    },
                }
            }
            i = i + 3;
        }
    }
    assert(model.skip(model.len() as int) =~= Seq::<char>::empty());
    assert(bytes@ + Seq::<u8>::empty() =~= bytes@);
    match String::from_utf8(bytes.clone()) {
        Ok(text) => {
            proof {
                encode_utf8_decode_utf8(text@);
            }
            text
        },
        Err(_) => latin1_text(&bytes),
    }
}

/// A text with Mojibake repaired: where every character is a Latin-1
/// character, not all are ASCII, and the Latin-1 bytes are the UTF-8 of a
/// shorter text, it is that text. Else it is left as it stands.
pub open spec fn spec_fix_mojibake(s: Seq<char>) -> Seq<char> {
    let bytes = latin1_bytes(s);
    if !is_ascii_chars(s) && fits_latin1(s) && valid_utf8(bytes) && decode_utf8(bytes).len()
        < s.len() {
        decode_utf8(bytes)
    } else {
        s
    }
}

/// Attempt to repair Mojibake: UTF-8 bytes that were each stored as a Latin-1
/// code point and then encoded as UTF-8 again.
pub fn fix_mojibake(s: &str) -> (out: String)
    ensures
        out@ == spec_fix_mojibake(s@),
{
    if s.is_ascii() {
        return s.to_owned();
    }
    let chars = chars_of(s);
    let ghost model = latin1_bytes(s@);
    let mut bytes: Vec<u8> = Vec::new();
    let mut i: usize = 0;
    while i < chars.len()
        invariant
            chars@ == s@,
            model == latin1_bytes(s@),
            i <= chars.len(),
            forall|j: int| 0 <= j < i ==> #[trigger] s@[j] as u32 <= 0xFF,
            bytes@ == model.take(i as int),
        decreases chars.len() - i,
    {
        let c = chars[i];
        if (c as u32) > 0xFF {
            assert(s@[i as int] as u32 > 0xFF);
            return s.to_owned();
        }
        bytes.push(c as u8);
        i = i + 1;
        assert(bytes@ =~= model.take(i as int));
    }
    assert(model.take(model.len() as int) =~= model);
    match String::from_utf8(bytes) {
        Ok(fixed) => {
            proof {
                encode_utf8_decode_utf8(fixed@);
            }
            if count(&fixed) < chars.len() {
                fixed
            } else {
                s.to_owned()
            }
        },
        Err(_) => s.to_owned(),
    }
}

/// What a character behind a backslash stands for, if the two are an escape.
pub open spec fn escaped_char(c: char) -> Option<char> {
    if c == 'n' || c == 'N' {
        Some('\n')
    } else if c == ',' || c == ';' || c == '\\' {
        Some(c)
    } else {
        None
    }
}

/// A text with the vCard escapes taken out, from the left. A backslash that
/// begins no escape stays.
pub open spec fn spec_unescape(s: Seq<char>) -> Seq<char>
    decreases s.len(),
{
    if s.len() == 0 {
        Seq::empty()
    } else if s.len() > 1 && s[0] == '\\' && escaped_char(s[1]) is Some {
        seq![escaped_char(s[1])->0] + spec_unescape(s.skip(2))
    } else {
        seq![s[0]] + spec_unescape(s.skip(1))
    }
}

fn read_escape(c: char) -> (out: Option<char>)
    ensures
        out == escaped_char(c),
{
    if c == 'n' || c == 'N' {
        Some('\n')
    } else if c == ',' || c == ';' || c == '\\' {
        Some(c)
    } else {
        None
    }
}

fn unescape(s: &str) -> (out: String)
    ensures
        out@ == spec_unescape(s@),
{
    let chars = chars_of(s);
    let ghost model = s@;
    let mut out = String::new();
    let mut i: usize = 0;
    assert(model.skip(0) =~= model);
    while i < chars.len()
        invariant
            chars@ == model,
            i <= chars.len(),
            spec_unescape(model) == out@ + spec_unescape(model.skip(i as int)),
        decreases chars.len() - i,
    {
        let ghost rest = model.skip(i as int);
        let ghost before = out@;
        let escape = if chars[i] == '\\' && chars.len() - i > 1 {
            read_escape(chars[i + 1])
        } else {
            None
        };
        match escape {
            Some(c) => {
                out.push(c);
                assert(rest.skip(2) =~= model.skip(i + 2));
                assert(before + (seq![c] + spec_unescape(model.skip(i + 2))) =~= out@
                    + spec_unescape(model.skip(i + 2)));
                i = i + 2;
            },
            None => {
                out.push(chars[i]);
                assert(rest.skip(1) =~= model.skip(i + 1));
                assert(before + (seq![rest[0]] + spec_unescape(model.skip(i + 1))) =~= out@
                    + spec_unescape(model.skip(i + 1)));
                i = i + 1;
            },
        }
    }
    assert(model.skip(model.len() as int) =~= Seq::<char>::empty());
    assert(out@ + Seq::<char>::empty() =~= out@);
    out
}

/// The position of the first semicolon that is not escaped, or the text's
/// length if it has none.
pub open spec fn find_separator(s: Seq<char>) -> int
    decreases s.len(),
{
    if s.len() == 0 || s[0] == ';' {
        0
    } else if s.len() > 1 && s[0] == '\\' {
        2 + find_separator(s.skip(2))
    } else {
        1 + find_separator(s.skip(1))
    }
}

/// The first semicolon that is not escaped lies in the text or at its end.
pub proof fn lemma_find_separator(s: Seq<char>)
    ensures
        0 <= find_separator(s) <= s.len(),
        find_separator(s) < s.len() ==> s[find_separator(s)] == ';',
    decreases s.len(),
{
    if s.len() > 0 && s[0] != ';' {
        if s.len() > 1 && s[0] == '\\' {
            lemma_find_separator(s.skip(2));
        } else {
            lemma_find_separator(s.skip(1));
        }
    }
}

/// The pieces of a text between the semicolons that are not escaped.
pub open spec fn split_components(s: Seq<char>) -> Seq<Seq<char>>
    decreases s.len(),
    via split_components_decreases
{
    let i = find_separator(s);
    if i >= s.len() {
        seq![s]
    } else {
        seq![s.take(i)] + split_components(s.skip(i + 1))
    }
}

#[via_fn]
proof fn split_components_decreases(s: Seq<char>) {
    lemma_find_separator(s);
}

fn separator_from(s: &Vec<char>, start: usize) -> (out: usize)
    requires
        start <= s.len(),
    ensures
        start <= out <= s.len(),
        out == start + find_separator(s@.skip(start as int)),
{
    let mut i: usize = start;
    while i < s.len() && s[i] != ';'
        invariant
            start <= i <= s.len(),
            find_separator(s@.skip(start as int)) == (i - start) + find_separator(
                s@.skip(i as int),
            ),
        decreases s.len() - i,
    {
        if s[i] == '\\' && s.len() - i > 1 {
            assert(s@.skip(i as int).skip(2) =~= s@.skip(i + 2));
            i = i + 2;
        } else {
            assert(s@.skip(i as int).skip(1) =~= s@.skip(i + 1));
            i = i + 1;
        }
    }
    i
}

/// Whether a property says that its value is quoted-printable.
pub open spec fn is_quoted_printable(p: PropertyModel) -> bool {
    match spec_param(p.params, "ENCODING"@) {
        Some(e) => spec_eq_ignore_case(e, "QUOTED-PRINTABLE"@),
        None => false,
    }
}

/// The text of a value, with the vCard escapes still in it.
pub open spec fn spec_escaped_text(p: PropertyModel) -> Seq<char> {
    if is_quoted_printable(p) {
        spec_decode_quoted_printable(p.value)
    } else {
        spec_fix_mojibake(p.value)
    }
}

fn escaped_text(prop: &Property) -> (out: String)
    ensures
        out@ == spec_escaped_text(prop@),
{
    let quoted = match prop.param("ENCODING") {
        Some(e) => eq_ignore_case(e, "QUOTED-PRINTABLE"),
        None => false,
    };
    if quoted {
        decode_quoted_printable(&prop.value)
    } else {
        fix_mojibake(&prop.value)
    }
}

/// The text that the value of a property means.
pub open spec fn spec_decode_value(p: PropertyModel) -> Seq<char> {
    spec_unescape(spec_escaped_text(p))
}

/// Decode a property value, handling quoted-printable and vCard text escapes.
pub fn decode_value(prop: &Property) -> (out: String)
    ensures
        out@ == spec_decode_value(prop@),
{
    unescape(&escaped_text(prop))
}

/// Each text of a list with the vCard escapes taken out.
pub open spec fn unescape_each(parts: Seq<Seq<char>>) -> Seq<Seq<char>> {
    parts.map_values(|p: Seq<char>| spec_unescape(p))
}

/// The components of a structured value: they stand between the semicolons
/// that are not escaped.
pub open spec fn spec_components(p: PropertyModel) -> Seq<Seq<char>> {
    unescape_each(split_components(spec_escaped_text(p)))
}

/// The components of a structured value, each decoded.
pub fn components(prop: &Property) -> (out: Vec<String>)
    ensures
        texts(out@) == spec_components(prop@),
{
    let text = escaped_text(prop);
    let chars = chars_of(&text);
    let ghost model = text@;
    let mut out: Vec<String> = Vec::new();
    let mut pos: usize = 0;
    assert(model.skip(0) =~= model);
    assert(texts(out@) + spec_components(prop@) =~= spec_components(prop@));
    loop
        invariant
            chars@ == model,
            pos <= chars.len(),
            spec_components(prop@) == texts(out@) + unescape_each(
                split_components(model.skip(pos as int)),
            ),
        decreases chars.len() - pos,
    {
        let ghost rest = model.skip(pos as int);
        let ghost before = out@;
        let end: usize = separator_from(&chars, pos);
        let piece = string_between(&chars, pos, end);
        assert(piece@ =~= rest.take(end - pos));
        out.push(unescape(&piece));
        assert(texts(out@) =~= texts(before).push(spec_unescape(piece@)));
        if end >= chars.len() {
            assert(rest.take(end - pos) =~= rest);
            assert(texts(out@) =~= texts(before) + unescape_each(seq![rest]));
            return out;
        }
        assert(rest.skip(end - pos + 1) =~= model.skip(end + 1));
        let ghost more = split_components(model.skip(end + 1));
        assert(split_components(rest) == seq![piece@] + more);
        assert(texts(before) + unescape_each(seq![piece@] + more) =~= texts(out@) + unescape_each(
            more,
        ));
        pos = end + 1;
    }
}

} // verus!
