//! Laws of decoding, one unit of the encoded text after the other.

use crate::decode::{
    find_separator, latin1, qp_bytes, spec_decode_quoted_printable, spec_unescape, split_components,
};
use crate::outside::digit_value;
use vstd::prelude::*;
use vstd::utf8::{decode_utf8, encode_utf8, valid_utf8};

verus! {

/// Every unit of a quoted-printable text stands for its bytes, whatever
/// follows: a character but the equals sign for its UTF-8 bytes; an equals sign
/// and two hexadecimal digits, of either case, for the byte with that number;
/// one before a CRLF, or a line feed and any character, for nothing; and one
/// before any other two characters for the UTF-8 bytes of the three.
pub proof fn law_quoted_units(a: char, b: char, rest: Seq<char>)
    ensures
        a != '=' ==> qp_bytes(seq![a] + rest) == encode_utf8(seq![a]) + qp_bytes(rest),
        digit_value(a) < 16 && digit_value(b) < 16 ==> qp_bytes(seq!['=', a, b] + rest) == seq![
            (digit_value(a) * 16 + digit_value(b)) as u8,
        ] + qp_bytes(rest),
        a == '\r' && b == '\n' || a == '\n' ==> qp_bytes(seq!['=', a, b] + rest) == qp_bytes(rest),
        !(digit_value(a) < 16 && digit_value(b) < 16) && !(a == '\r' && b == '\n') && a != '\n'
            ==> qp_bytes(seq!['=', a, b] + rest) == encode_utf8(seq!['=', a, b]) + qp_bytes(rest),
        qp_bytes(Seq::empty()).len() == 0,
        qp_bytes(seq!['=']).len() == 0,
        qp_bytes(seq!['=', a]).len() == 0,
{
    assert((seq![a] + rest).skip(1) =~= rest);
    let s = seq!['=', a, b] + rest;
    assert(s.skip(3) =~= rest);
    assert(s.take(3) =~= seq!['=', a, b]);
    assert(s[0] == '=' && s[1] == a && s[2] == b);
}

/// The text of quoted bytes is the one whose UTF-8 they are, and where they are
/// no UTF-8, that with a character for each byte, with the byte's number.
pub proof fn law_bytes_to_text(s: Seq<char>)
    ensures
        ({
            let bytes = qp_bytes(s);
            let text = spec_decode_quoted_printable(s);
            &&& valid_utf8(bytes) ==> text == decode_utf8(bytes)
            &&& !valid_utf8(bytes) ==> {
                &&& text.len() == bytes.len()
                &&& forall|i: int|
                    0 <= i < bytes.len() ==> #[trigger] text[i] as int == bytes[i] as int
            }
        }),
{
}

/// Bytes read as Latin-1 are the characters with their numbers.
pub proof fn law_latin1(bytes: Seq<u8>)
    ensures
        latin1(bytes).len() == bytes.len(),
        forall|i: int| 0 <= i < bytes.len() ==> #[trigger] latin1(bytes)[i] as int == bytes[i] as int,
{
}

/// Every unit of an escaped text stands for its character, whatever follows:
/// an escape for the one it means, and any other character for itself, a
/// backslash that begins no escape among them.
pub proof fn law_escape_units(c: char, rest: Seq<char>)
    ensures
        spec_unescape(Seq::empty()).len() == 0,
        c != '\\' ==> spec_unescape(seq![c] + rest) == seq![c] + spec_unescape(rest),
        spec_unescape(seq!['\\', 'n'] + rest) == seq!['\n'] + spec_unescape(rest),
        spec_unescape(seq!['\\', 'N'] + rest) == seq!['\n'] + spec_unescape(rest),
        c == ',' || c == ';' || c == '\\' ==> spec_unescape(seq!['\\', c] + rest) == seq![c]
            + spec_unescape(rest),
        c != 'n' && c != 'N' && c != ',' && c != ';' && c != '\\' ==> spec_unescape(
            seq!['\\', c] + rest,
        ) == seq!['\\', c] + spec_unescape(rest),
        spec_unescape(seq!['\\']) == seq!['\\'],
{
    assert((seq![c] + rest).skip(1) =~= rest);
    assert((seq!['\\', 'n'] + rest).skip(2) =~= rest);
    assert((seq!['\\', 'N'] + rest).skip(2) =~= rest);
    let s = seq!['\\', c] + rest;
    assert(s.skip(2) =~= rest);
    assert(s[0] == '\\' && s[1] == c);
    if c != 'n' && c != 'N' && c != ',' && c != ';' && c != '\\' {
        assert(s.skip(1) =~= seq![c] + rest);
        assert(spec_unescape(seq![c] + rest) == seq![c] + spec_unescape(rest));
        assert(spec_unescape(s) == seq!['\\'] + spec_unescape(s.skip(1)));
        assert(seq!['\\'] + (seq![c] + spec_unescape(rest)) =~= seq!['\\', c] + spec_unescape(rest));
    }
    assert(seq!['\\'].skip(1) =~= Seq::<char>::empty());
    assert(spec_unescape(seq!['\\'].skip(1)) =~= Seq::<char>::empty());
    assert(seq!['\\'] + Seq::<char>::empty() =~= seq!['\\']);
}

/// A list of pieces with a text put in front of the first.
pub open spec fn put_before(unit: Seq<char>, pieces: Seq<Seq<char>>) -> Seq<Seq<char>> {
    pieces.update(0, unit + pieces[0])
}

proof fn lemma_unit_before(unit: Seq<char>, rest: Seq<char>)
    requires
        unit.len() == 1 && unit[0] != ';' && unit[0] != '\\' || unit.len() == 2 && unit[0] == '\\',
    ensures
        split_components(unit + rest) == put_before(unit, split_components(rest)),
{
    let s = unit + rest;
    let n = unit.len() as int;
    let i = find_separator(rest);
    crate::decode::lemma_find_separator(rest);
    assert(s.skip(n) =~= rest);
    assert(s[0] == unit[0]);
    assert(find_separator(s) == n + i);
    if i < rest.len() {
        assert(s.take(n + i) =~= unit + rest.take(i));
        assert(s.skip(n + i + 1) =~= rest.skip(i + 1));
    }
    assert(split_components(s) =~= put_before(unit, split_components(rest)));
}

/// A structured value is parted at a semicolon, but for one behind a backslash
/// that is not itself behind a backslash. Any other unit stays in its piece.
pub proof fn law_component_units(c: char, rest: Seq<char>)
    ensures
        split_components(Seq::empty()) == seq![Seq::<char>::empty()],
        split_components(seq![';'] + rest) == seq![Seq::<char>::empty()] + split_components(rest),
        c != ';' && c != '\\' ==> split_components(seq![c] + rest) == put_before(
            seq![c],
            split_components(rest),
        ),
        split_components(seq!['\\', c] + rest) == put_before(
            seq!['\\', c],
            split_components(rest),
        ),
{
    let s = seq![';'] + rest;
    assert(s.skip(1) =~= rest);
    assert(s.take(0) =~= Seq::<char>::empty());
    assert(find_separator(s) == 0);
    if c != ';' && c != '\\' {
        lemma_unit_before(seq![c], rest);
    }
    lemma_unit_before(seq!['\\', c], rest);
}

} // verus!
