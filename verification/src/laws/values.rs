//! Laws of decoding: a value reads back as the text that was encoded.

use crate::card::PropertyModel;
use crate::decode::{
    escaped_char, find_separator, fits_latin1, hex_byte, is_quoted_printable, latin1, latin1_bytes,
    qp_bytes, spec_components, spec_decode_quoted_printable, spec_decode_value, spec_escaped_text,
    spec_fix_mojibake, spec_unescape, split_components, unescape_each,
};
use crate::laws::sequences::{lemma_join_front, lemma_split_first};
use crate::outside::digit_value;
use crate::text::{spec_join, spec_split};
use vstd::prelude::*;
use vstd::utf8::{
    char_is_scalar, decode_utf8, encode_scalar, encode_utf8, encode_utf8_decode_utf8,
    encode_utf8_valid_utf8, is_ascii_chars, is_ascii_chars_encode_utf8, valid_utf8,
};

verus! {

/// A hexadecimal digit.
pub open spec fn hex_digit(n: int) -> char {
    if n < 10 {
        ('0' as u32 + n) as char
    } else {
        ('A' as u32 + (n - 10)) as char
    }
}

/// A byte in quoted-printable encoding.
pub open spec fn quote_byte(b: u8) -> Seq<char> {
    seq!['=', hex_digit(b as int / 16), hex_digit(b as int % 16)]
}

/// Bytes in quoted-printable encoding.
pub open spec fn quote_bytes(bytes: Seq<u8>) -> Seq<char>
    decreases bytes.len(),
{
    if bytes.len() == 0 {
        Seq::empty()
    } else {
        quote_byte(bytes[0]) + quote_bytes(bytes.skip(1))
    }
}

/// A text in quoted-printable encoding: ASCII characters stand for
/// themselves, but for the equals sign, and all others are quoted.
pub open spec fn quote_text(s: Seq<char>) -> Seq<char>
    decreases s.len(),
{
    if s.len() == 0 {
        Seq::empty()
    } else {
        let unit = if s[0] == '=' || s[0] as u32 > 0x7F {
            quote_bytes(encode_utf8(seq![s[0]]))
        } else {
            seq![s[0]]
        };
        unit + quote_text(s.skip(1))
    }
}

proof fn lemma_hex_digits(b: u8)
    ensures
        hex_byte(hex_digit(b as int / 16), hex_digit(b as int % 16)) == Some(b),
        hex_digit(b as int / 16) != '\n' && hex_digit(b as int / 16) != '\r',
{
    let hi = hex_digit(b as int / 16);
    let lo = hex_digit(b as int % 16);
    assert(digit_value(hi) == b as int / 16);
    assert(digit_value(lo) == b as int % 16);
}

proof fn lemma_quoted_bytes(bytes: Seq<u8>, rest: Seq<char>)
    ensures
        qp_bytes(quote_bytes(bytes) + rest) == bytes + qp_bytes(rest),
    decreases bytes.len(),
{
    let s = quote_bytes(bytes) + rest;
    if bytes.len() == 0 {
        assert(s =~= rest);
        assert(bytes + qp_bytes(rest) =~= qp_bytes(rest));
    } else {
        let b = bytes[0];
        let more = bytes.skip(1);
        lemma_quoted_bytes(more, rest);
        lemma_hex_digits(b);
        assert(s.skip(3) =~= quote_bytes(more) + rest);
        assert(s[1] == hex_digit(b as int / 16));
        assert(s[2] == hex_digit(b as int % 16));
        assert(bytes =~= seq![b] + more);
        assert(seq![b] + (more + qp_bytes(rest)) =~= seq![b] + more + qp_bytes(rest));
    }
}

/// Quoted bytes read back as the bytes.
pub proof fn law_quoted_bytes_read_back(bytes: Seq<u8>)
    ensures
        qp_bytes(quote_bytes(bytes)) == bytes,
        valid_utf8(bytes) ==> spec_decode_quoted_printable(quote_bytes(bytes)) == decode_utf8(
            bytes,
        ),
        !valid_utf8(bytes) ==> spec_decode_quoted_printable(quote_bytes(bytes)) == latin1(bytes),
{
    let none = Seq::<char>::empty();
    lemma_quoted_bytes(bytes, none);
    assert(quote_bytes(bytes) + none =~= quote_bytes(bytes));
    assert(bytes + qp_bytes(none) =~= bytes);
}

proof fn lemma_encode_front(s: Seq<char>)
    requires
        s.len() > 0,
    ensures
        encode_utf8(s) == encode_utf8(seq![s[0]]) + encode_utf8(s.skip(1)),
{
    let one = seq![s[0]];
    assert(one.drop_first() =~= Seq::<char>::empty());
    assert(encode_utf8(one.drop_first()) =~= Seq::<u8>::empty());
    assert(encode_utf8(one) =~= encode_scalar(s[0] as u32));
    assert(s.drop_first() =~= s.skip(1));
}

/// A text in quoted-printable encoding reads back as the text.
pub proof fn law_quoted_text_reads_back(s: Seq<char>)
    ensures
        spec_decode_quoted_printable(quote_text(s)) == s,
{
    let none = Seq::<char>::empty();
    lemma_quoted_text(s, none);
    assert(quote_text(s) + none =~= quote_text(s));
    assert(encode_utf8(s) + qp_bytes(none) =~= encode_utf8(s));
    encode_utf8_valid_utf8(s);
    encode_utf8_decode_utf8(s);
}

proof fn lemma_quoted_text(s: Seq<char>, rest: Seq<char>)
    ensures
        qp_bytes(quote_text(s) + rest) == encode_utf8(s) + qp_bytes(rest),
    decreases s.len(),
{
    let q = quote_text(s) + rest;
    if s.len() == 0 {
        assert(encode_utf8(s) =~= Seq::<u8>::empty());
        assert(q =~= rest);
        assert(encode_utf8(s) + qp_bytes(rest) =~= qp_bytes(rest));
    } else {
        let more = s.skip(1);
        let unit = encode_utf8(seq![s[0]]);
        lemma_quoted_text(more, rest);
        lemma_encode_front(s);
        if s[0] == '=' || s[0] as u32 > 0x7F {
            lemma_quoted_bytes(unit, quote_text(more) + rest);
            assert(q =~= quote_bytes(unit) + (quote_text(more) + rest));
        } else {
            assert(q.skip(1) =~= quote_text(more) + rest);
        }
        assert(unit + (encode_utf8(more) + qp_bytes(rest)) =~= unit + encode_utf8(more) + qp_bytes(
            rest,
        ));
    }
}

proof fn lemma_encode_concat(a: Seq<char>, b: Seq<char>)
    ensures
        encode_utf8(a + b) == encode_utf8(a) + encode_utf8(b),
    decreases a.len(),
{
    if a.len() == 0 {
        assert(a + b =~= b);
        assert(encode_utf8(a) =~= Seq::<u8>::empty());
        assert(encode_utf8(a) + encode_utf8(b) =~= encode_utf8(b));
    } else {
        lemma_encode_concat(a.skip(1), b);
        lemma_encode_front(a);
        lemma_encode_front(a + b);
        assert((a + b).skip(1) =~= a.skip(1) + b);
        assert(encode_utf8(seq![a[0]]) + (encode_utf8(a.skip(1)) + encode_utf8(b)) =~= encode_utf8(
            seq![a[0]],
        ) + encode_utf8(a.skip(1)) + encode_utf8(b));
    }
}

/// A soft line break, an equals sign before a CRLF, makes no difference: it
/// may stand between any two characters of an encoded text.
pub proof fn law_soft_breaks_ignored(a: Seq<char>, b: Seq<char>)
    ensures
        spec_decode_quoted_printable(quote_text(a) + seq!['=', '\r', '\n'] + quote_text(b)) == a + b,
{
    let soft = seq!['=', '\r', '\n'];
    let rest = soft + quote_text(b);
    let none = Seq::<char>::empty();
    lemma_quoted_text(a, rest);
    assert(quote_text(a) + rest =~= quote_text(a) + soft + quote_text(b));
    assert(rest.skip(3) =~= quote_text(b));
    lemma_quoted_text(b, none);
    assert(quote_text(b) + none =~= quote_text(b));
    assert(encode_utf8(b) + qp_bytes(none) =~= encode_utf8(b));
    lemma_encode_concat(a, b);
    encode_utf8_valid_utf8(a + b);
    encode_utf8_decode_utf8(a + b);
}

/// A text without an equals sign stands for itself.
pub proof fn law_unquoted_text_kept(s: Seq<char>)
    requires
        !s.contains('='),
    ensures
        spec_decode_quoted_printable(s) == s,
{
    lemma_unquoted(s);
    encode_utf8_valid_utf8(s);
    encode_utf8_decode_utf8(s);
}

proof fn lemma_unquoted(s: Seq<char>)
    requires
        !s.contains('='),
    ensures
        qp_bytes(s) == encode_utf8(s),
    decreases s.len(),
{
    if s.len() == 0 {
        assert(encode_utf8(s) =~= Seq::<u8>::empty());
    } else {
        let rest = s.skip(1);
        assert(s.contains(s[0]));
        assert forall|i: int| 0 <= i < rest.len() implies rest[i] != '=' by {
            assert(s.contains(s[i + 1]));
        }
        lemma_unquoted(rest);
        lemma_encode_front(s);
    }
}

/// A text whose UTF-8 bytes were taken for Latin-1 characters.
pub open spec fn mojibake(s: Seq<char>) -> Seq<char> {
    latin1(encode_utf8(s))
}

proof fn lemma_beyond_ascii(c: char)
    requires
        !('\0' <= c <= '\u{7f}'),
    ensures
        c as u32 > 0x7F,
{
}

proof fn lemma_encoded_length(s: Seq<char>)
    ensures
        encode_utf8(s).len() >= s.len(),
        !is_ascii_chars(s) ==> encode_utf8(s).len() > s.len(),
    decreases s.len(),
{
    if s.len() > 0 {
        let rest = s.drop_first();
        lemma_encoded_length(rest);
        char_is_scalar(s[0]);
        if !is_ascii_chars(s) && is_ascii_chars(rest) {
            let i = choose|i: int| 0 <= i < s.len() && !('\0' <= #[trigger] s[i] <= '\u{7f}');
            if i > 0 {
                assert(rest[i - 1] == s[i]);
            }
            lemma_beyond_ascii(s[0]);
        }
    }
}

/// Mojibake is repaired: every text comes back from it.
pub proof fn law_mojibake_repaired(s: Seq<char>)
    ensures
        spec_fix_mojibake(mojibake(s)) == s,
{
    let bytes = encode_utf8(s);
    let m = mojibake(s);
    if is_ascii_chars(s) {
        is_ascii_chars_encode_utf8(s);
        assert forall|i: int| 0 <= i < s.len() implies #[trigger] m[i] == s[i] by {
            assert(s[i] as u8 == bytes[i]);
        }
        assert(m =~= s);
    } else {
        encode_utf8_valid_utf8(s);
        encode_utf8_decode_utf8(s);
        assert(latin1_bytes(m) =~= bytes);
        lemma_encoded_length(s);
        assert(fits_latin1(m));
        if is_ascii_chars(m) {
            is_ascii_chars_encode_utf8(m);
            assert(encode_utf8(m) =~= bytes) by {
                assert forall|i: int| 0 <= i < bytes.len() implies encode_utf8(m)[i]
                    == #[trigger] bytes[i] by {
                    assert(m[i] as u8 == encode_utf8(m)[i]);
                }
            }
            encode_utf8_decode_utf8(m);
        }
    }
}

/// ASCII text is never touched by the repair, no text grows by it, and text
/// that holds a character beyond Latin-1 or whose Latin-1 bytes are not UTF-8
/// is left alone.
pub proof fn law_repair_is_careful(s: Seq<char>)
    ensures
        is_ascii_chars(s) ==> spec_fix_mojibake(s) == s,
        spec_fix_mojibake(s).len() <= s.len(),
        !fits_latin1(s) ==> spec_fix_mojibake(s) == s,
        !valid_utf8(latin1_bytes(s)) ==> spec_fix_mojibake(s) == s,
{
}

/// A character as it is escaped in a value.
pub open spec fn escape_char(c: char) -> Seq<char> {
    if c == '\\' || c == ',' || c == ';' {
        seq!['\\', c]
    } else if c == '\n' {
        seq!['\\', 'n']
    } else {
        seq![c]
    }
}

/// A text with the vCard escapes put in.
pub open spec fn escape(s: Seq<char>) -> Seq<char>
    decreases s.len(),
{
    if s.len() == 0 {
        Seq::empty()
    } else {
        escape_char(s[0]) + escape(s.skip(1))
    }
}

/// Taking the escapes out gives back the text into which they were put.
pub proof fn law_escapes_read_back(s: Seq<char>)
    ensures
        spec_unescape(escape(s)) == s,
    decreases s.len(),
{
    if s.len() > 0 {
        let e = escape(s);
        let rest = s.skip(1);
        law_escapes_read_back(rest);
        assert(s =~= seq![s[0]] + rest);
        assert(e.skip(escape_char(s[0]).len() as int) =~= escape(rest));
        assert(e[0] == escape_char(s[0])[0]);
        if escape_char(s[0]).len() == 2 {
            assert(e[1] == escape_char(s[0])[1]);
        }
    } else {
        assert(s =~= Seq::<char>::empty());
    }
}

/// A text without a backslash has no escapes, and stays as it is.
pub proof fn law_unescaped_kept(s: Seq<char>)
    requires
        !s.contains('\\'),
    ensures
        spec_unescape(s) == s,
    decreases s.len(),
{
    if s.len() > 0 {
        let rest = s.skip(1);
        assert(s.contains(s[0]));
        assert forall|i: int| 0 <= i < rest.len() implies rest[i] != '\\' by {
            assert(s.contains(s[i + 1]));
        }
        law_unescaped_kept(rest);
        assert(s =~= seq![s[0]] + rest);
    }
}

proof fn lemma_escape_ascii(s: Seq<char>)
    requires
        is_ascii_chars(s),
    ensures
        is_ascii_chars(escape(s)),
    decreases s.len(),
{
    if s.len() > 0 {
        let rest = s.skip(1);
        assert forall|i: int| 0 <= i < rest.len() implies '\0' <= #[trigger] rest[i] <= '\u{7f}' by {
            assert(rest[i] == s[i + 1]);
        }
        lemma_escape_ascii(rest);
        let a = escape_char(s[0]);
        let b = escape(rest);
        assert forall|i: int| 0 <= i < (a + b).len() implies '\0' <= #[trigger] (a + b)[i]
            <= '\u{7f}' by {
            if i >= a.len() {
                assert((a + b)[i] == b[i - a.len()]);
            }
        }
    }
}

/// A value means the text that was written in it: plainly where that does not
/// look like Mojibake, which ASCII text never does, and in quoted-printable
/// encoding or as Mojibake whatever the text.
pub proof fn law_value_reads_back(p: PropertyModel, s: Seq<char>)
    ensures
        !is_quoted_printable(p) && p.value == escape(s) && spec_fix_mojibake(escape(s)) == escape(s)
            ==> spec_decode_value(p) == s,
        is_ascii_chars(s) ==> spec_fix_mojibake(escape(s)) == escape(s),
        !is_quoted_printable(p) && p.value == mojibake(escape(s)) ==> spec_decode_value(p) == s,
        is_quoted_printable(p) && p.value == quote_text(escape(s)) ==> spec_decode_value(p) == s,
{
    law_escapes_read_back(s);
    law_mojibake_repaired(escape(s));
    law_quoted_text_reads_back(escape(s));
    if is_ascii_chars(s) {
        lemma_escape_ascii(s);
    }
}

/// Components as they are written in a structured value: each with its
/// escapes, and semicolons between them.
pub open spec fn write_components(parts: Seq<Seq<char>>) -> Seq<char> {
    spec_join(parts.map_values(|p: Seq<char>| escape(p)), seq![';'])
}

proof fn lemma_separator_behind(s: Seq<char>, rest: Seq<char>)
    requires
        rest.len() > 0 ==> rest[0] == ';',
    ensures
        find_separator(escape(s) + rest) == escape(s).len(),
    decreases s.len(),
{
    let w = escape(s) + rest;
    if s.len() == 0 {
        assert(w =~= rest);
    } else {
        let a = escape_char(s[0]);
        lemma_separator_behind(s.skip(1), rest);
        assert(w.skip(a.len() as int) =~= escape(s.skip(1)) + rest);
        assert(w[0] == a[0]);
    }
}

proof fn lemma_components_split(parts: Seq<Seq<char>>)
    requires
        parts.len() >= 1,
    ensures
        split_components(write_components(parts)) == parts.map_values(|p: Seq<char>| escape(p)),
    decreases parts.len(),
{
    let escaped = parts.map_values(|p: Seq<char>| escape(p));
    let w = write_components(parts);
    let first = escape(parts[0]);
    assert(escaped[0] == first);
    if parts.len() == 1 {
        lemma_separator_behind(parts[0], Seq::empty());
        assert(first + Seq::<char>::empty() =~= first);
        assert(escaped =~= seq![first]);
    } else {
        let more = parts.skip(1);
        let tail = write_components(more);
        lemma_components_split(more);
        lemma_join_front(escaped, seq![';']);
        assert(escaped.skip(1) =~= more.map_values(|p: Seq<char>| escape(p)));
        let rest = seq![';'] + tail;
        assert(w =~= first + rest);
        lemma_separator_behind(parts[0], rest);
        assert(w.take(first.len() as int) =~= first);
        assert(w.skip(first.len() as int + 1) =~= tail);
        assert(escaped =~= seq![first] + escaped.skip(1));
    }
}

/// A structured value has the components that were written in it, with
/// whatever characters in them: plainly where that does not look like
/// Mojibake, and else in quoted-printable encoding or as Mojibake.
pub proof fn law_components_read_back(p: PropertyModel, parts: Seq<Seq<char>>)
    requires
        parts.len() >= 1,
    ensures
        ({
            let w = write_components(parts);
            &&& !is_quoted_printable(p) && p.value == w && spec_fix_mojibake(w) == w
                ==> spec_components(p) == parts
            &&& !is_quoted_printable(p) && p.value == mojibake(w) ==> spec_components(p) == parts
            &&& is_quoted_printable(p) && p.value == quote_text(w) ==> spec_components(p) == parts
        }),
{
    let w = write_components(parts);
    let escaped = parts.map_values(|s: Seq<char>| escape(s));
    lemma_components_split(parts);
    law_mojibake_repaired(w);
    law_quoted_text_reads_back(w);
    assert(unescape_each(escaped) =~= parts) by {
        assert forall|i: int| 0 <= i < parts.len() implies #[trigger] unescape_each(escaped)[i]
            == parts[i] by {
            law_escapes_read_back(parts[i]);
        }
    }
}

/// Whether a semicolon is escaped, where the text is read from the left.
pub open spec fn has_escaped_semicolon(s: Seq<char>) -> bool
    decreases s.len(),
{
    if s.len() < 2 {
        false
    } else if s[0] == '\\' {
        s[1] == ';' || has_escaped_semicolon(s.skip(2))
    } else {
        has_escaped_semicolon(s.skip(1))
    }
}

proof fn lemma_unescape_pair(s: Seq<char>)
    requires
        s.len() > 1,
        s[0] == '\\',
    ensures
        spec_unescape(s) == (match escaped_char(s[1]) {
            Some(c) => seq![c],
            None => s.take(2),
        }) + spec_unescape(s.skip(2)),
{
    if escaped_char(s[1]) is None {
        let rest = s.skip(1);
        assert(rest.skip(1) =~= s.skip(2));
        assert(spec_unescape(rest) == seq![s[1]] + spec_unescape(s.skip(2)));
        assert(seq![s[0]] + (seq![s[1]] + spec_unescape(s.skip(2))) =~= s.take(2) + spec_unescape(
            s.skip(2),
        ));
    }
}

proof fn lemma_first_component(s: Seq<char>)
    requires
        !has_escaped_semicolon(s),
    ensures
        ({
            let i = find_separator(s);
            &&& 0 <= i <= s.len()
            &&& !spec_unescape(s.take(i)).contains(';')
            &&& i < s.len() ==> {
                &&& spec_unescape(s) == spec_unescape(s.take(i)) + seq![';'] + spec_unescape(
                    s.skip(i + 1),
                )
                &&& !has_escaped_semicolon(s.skip(i + 1))
            }
        }),
    decreases s.len(),
{
    let i = find_separator(s);
    let none = Seq::<char>::empty();
    assert(spec_unescape(none) == none);
    if s.len() == 0 || s[0] == ';' {
        assert(s.take(0) =~= none);
        if s.len() > 0 {
            assert(none + seq![';'] + spec_unescape(s.skip(1)) =~= seq![';'] + spec_unescape(
                s.skip(1),
            ));
        }
    } else {
        let n: int = if s.len() > 1 && s[0] == '\\' {
            2
        } else {
            1
        };
        let rest = s.skip(n);
        let j = find_separator(rest);
        lemma_first_component(rest);
        let head = s.take(i);
        let unit = if n == 1 {
            s.take(1)
        } else {
            match escaped_char(s[1]) {
                Some(c) => seq![c],
                None => s.take(2),
            }
        };
        assert(head.skip(n) =~= rest.take(j));
        assert(head.take(n) =~= s.take(n));
        if n == 2 {
            lemma_unescape_pair(s);
            lemma_unescape_pair(head);
        } else {
            assert(s.take(1) =~= seq![s[0]]);
        }
        assert(spec_unescape(s) == unit + spec_unescape(rest));
        assert(spec_unescape(head) == unit + spec_unescape(rest.take(j)));
        let a = spec_unescape(rest.take(j));
        assert forall|k: int| 0 <= k < (unit + a).len() implies (unit + a)[k] != ';' by {
            if k >= unit.len() {
                assert(a.contains(a[k - unit.len()]));
            }
        }
        if i < s.len() {
            assert(s.skip(i + 1) =~= rest.skip(j + 1));
            let b = spec_unescape(rest.skip(j + 1));
            assert(unit + (a + seq![';'] + b) =~= unit + a + seq![';'] + b);
        }
    }
}

proof fn lemma_unescaped_split(s: Seq<char>)
    requires
        !has_escaped_semicolon(s),
    ensures
        unescape_each(split_components(s)) == spec_split(spec_unescape(s), ';'),
    decreases s.len(),
{
    lemma_first_component(s);
    let i = find_separator(s);
    let head = spec_unescape(s.take(i));
    if i >= s.len() {
        assert(s.take(i) =~= s);
        lemma_split_first(head, ';', Seq::empty());
        assert(unescape_each(seq![s]) =~= seq![head]);
    } else {
        let rest = s.skip(i + 1);
        lemma_unescaped_split(rest);
        lemma_split_first(head, ';', spec_unescape(rest));
        assert(unescape_each(seq![s.take(i)] + split_components(rest)) =~= seq![head]
            + unescape_each(split_components(rest)));
    }
}

/// Where no semicolon is escaped, the components are the pieces of the decoded
/// value between its semicolons, whatever else is escaped.
pub proof fn law_components_plain(p: PropertyModel)
    requires
        !has_escaped_semicolon(spec_escaped_text(p)),
    ensures
        spec_components(p) == spec_split(spec_decode_value(p), ';'),
{
    lemma_unescaped_split(spec_escaped_text(p));
}

} // verus!
