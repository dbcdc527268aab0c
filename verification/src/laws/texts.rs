//! Laws of the operations on text, told by what their results look like.

use crate::laws::sequences::{lemma_join_front, lemma_split_first};
use crate::outside::{digit_value, is_number, is_white_space, lowercase, number_value};
use crate::style::spec_concat;
use crate::text::{
    lemma_find, lemma_split_len, spec_decimal, spec_find, spec_join, spec_lines, spec_lower,
    spec_nonempty, spec_pad_left, spec_pad_right, spec_repeat, spec_split, spec_splitn, spec_trim,
    spec_trim_cr, spec_trim_each, spec_trim_end, spec_trim_start, spec_write_lines, without_cr,
};
use vstd::prelude::*;
use vstd::utf8::is_ascii_chars;

verus! {

/// The lower case of an ASCII text differs from it in the letters `A` to `Z`
/// alone. That of any other text is the one of Unicode.
pub proof fn law_lower(s: Seq<char>)
    ensures
        is_ascii_chars(s) ==> {
            &&& spec_lower(s).len() == s.len()
            &&& forall|i: int|
                0 <= i < s.len() ==> #[trigger] spec_lower(s)[i] as int == (if 'A' <= s[i] <= 'Z' {
                    s[i] as int + 32
                } else {
                    s[i] as int
                })
        },
        !is_ascii_chars(s) ==> spec_lower(s) == lowercase(s),
{
}

/// Texts are joined one after the other, with the separator between them and
/// nowhere else.
pub proof fn law_join(parts: Seq<Seq<char>>, sep: Seq<char>)
    ensures
        parts.len() == 0 ==> spec_join(parts, sep).len() == 0,
        parts.len() == 1 ==> spec_join(parts, sep) == parts[0],
        parts.len() >= 2 ==> spec_join(parts, sep) == parts[0] + sep + spec_join(parts.skip(1), sep),
{
    if parts.len() >= 2 {
        lemma_join_front(parts, sep);
    }
}

/// A text is parted at every separator: no piece holds one, and the pieces
/// joined again are the text.
pub proof fn law_split(s: Seq<char>, c: char)
    ensures
        spec_split(s, c).len() >= 1,
        forall|i: int| 0 <= i < spec_split(s, c).len() ==> !(#[trigger] spec_split(s, c)[i]).contains(c),
        spec_join(spec_split(s, c), seq![c]) == s,
    decreases s.len(),
{
    lemma_find(s, c);
    let n = spec_find(s, c);
    let pieces = spec_split(s, c);
    if n < s.len() {
        let rest = s.skip(n + 1);
        law_split(rest, c);
        assert forall|i: int| 0 <= i < pieces.len() implies !(#[trigger] pieces[i]).contains(c) by {
            if i > 0 {
                assert(pieces[i] == spec_split(rest, c)[i - 1]);
            }
        }
        lemma_join_front(pieces, seq![c]);
        assert(pieces.skip(1) =~= spec_split(rest, c));
        assert(s =~= s.take(n) + seq![c] + rest);
    }
}

/// A text is parted into no more pieces than asked for: only the last may hold
/// a separator, and only where there are as many as that. The pieces joined
/// again are the text.
pub proof fn law_splitn(s: Seq<char>, c: char, n: nat)
    requires
        n >= 1,
    ensures
        1 <= spec_splitn(s, c, n).len() <= n,
        forall|i: int|
            0 <= i < spec_splitn(s, c, n).len() && (i < spec_splitn(s, c, n).len() - 1
                || spec_splitn(s, c, n).len() < n) ==> !(#[trigger] spec_splitn(s, c, n)[i]).contains(
                c,
            ),
        spec_join(spec_splitn(s, c, n), seq![c]) == s,
    decreases n,
{
    lemma_find(s, c);
    let k = spec_find(s, c);
    let pieces = spec_splitn(s, c, n);
    if n > 1 && k < s.len() {
        let m = (n - 1) as nat;
        let rest = s.skip(k + 1);
        law_splitn(rest, c, m);
        assert forall|i: int|
            0 <= i < pieces.len() && (i < pieces.len() - 1 || pieces.len() < n) implies !(
        #[trigger] pieces[i]).contains(c) by {
            if i > 0 {
                assert(pieces[i] == spec_splitn(rest, c, m)[i - 1]);
            }
        }
        lemma_join_front(pieces, seq![c]);
        assert(pieces.skip(1) =~= spec_splitn(rest, c, m));
        assert(s =~= s.take(k) + seq![c] + rest);
    }
}

/// Whether a text is nothing but white space.
pub open spec fn is_blank(s: Seq<char>) -> bool {
    forall|i: int| 0 <= i < s.len() ==> is_white_space(#[trigger] s[i])
}

proof fn lemma_trim_start(s: Seq<char>) -> (n: int)
    ensures
        0 <= n <= s.len(),
        is_blank(s.take(n)),
        spec_trim_start(s) == s.skip(n),
        n < s.len() ==> !is_white_space(s[n]),
    decreases s.len(),
{
    if s.len() > 0 && is_white_space(s[0]) {
        let m = lemma_trim_start(s.skip(1));
        assert(s.skip(1).skip(m) =~= s.skip(m + 1));
        assert forall|i: int| 0 <= i < m + 1 implies is_white_space(#[trigger] s.take(m + 1)[i]) by {
            if i > 0 {
                assert(s.skip(1).take(m)[i - 1] == s[i]);
            }
        }
        m + 1
    } else {
        assert(s.skip(0) =~= s);
        0
    }
}

proof fn lemma_trim_end(s: Seq<char>) -> (n: int)
    ensures
        0 <= n <= s.len(),
        is_blank(s.skip(n)),
        spec_trim_end(s) == s.take(n),
        n > 0 ==> !is_white_space(s[n - 1]),
    decreases s.len(),
{
    if s.len() > 0 && is_white_space(s.last()) {
        let init = s.drop_last();
        let m = lemma_trim_end(init);
        assert(init.take(m) =~= s.take(m));
        assert forall|i: int| 0 <= i < s.skip(m).len() implies is_white_space(
            #[trigger] s.skip(m)[i],
        ) by {
            if m + i < init.len() {
                assert(init.skip(m)[i] == s[m + i]);
            }
        }
        m
    } else {
        assert(s.take(s.len() as int) =~= s);
        s.len() as int
    }
}

/// A trimmed text neither begins nor ends with white space, and what was taken
/// off before and behind it is nothing but white space.
pub proof fn law_trim(s: Seq<char>)
    ensures
        spec_trim(s).len() > 0 ==> !is_white_space(spec_trim(s)[0]) && !is_white_space(
            spec_trim(s).last(),
        ),
        exists|a: int, b: int|
            0 <= a <= b <= s.len() && #[trigger] s.subrange(a, b) == spec_trim(s) && is_blank(
                s.take(a),
            ) && is_blank(s.skip(b)),
{
    let a = lemma_trim_start(s);
    let t = s.skip(a);
    let n = lemma_trim_end(t);
    let b = a + n;
    assert(s.subrange(a, b) =~= t.take(n));
    assert(s.skip(b) =~= t.skip(n));
    if n > 0 {
        assert(t[n - 1] == s[b - 1]);
        assert(spec_trim(s)[0] == s[a]);
    }
    assert(s.subrange(a, b) == spec_trim(s) && is_blank(s.take(a)) && is_blank(s.skip(b)));
}

/// The texts of a list are trimmed each in its place.
pub proof fn law_trim_each(parts: Seq<Seq<char>>)
    ensures
        spec_trim_each(parts).len() == parts.len(),
        forall|i: int| 0 <= i < parts.len() ==> #[trigger] spec_trim_each(parts)[i] == spec_trim(parts[i]),
{
}

/// Carriage returns at the end are taken off, all of them and nothing else.
pub proof fn law_trim_cr(s: Seq<char>, crs: Seq<char>)
    requires
        s.len() > 0 ==> s.last() != '\r',
        forall|i: int| 0 <= i < crs.len() ==> crs[i] == '\r',
    ensures
        spec_trim_cr(s + crs) == s,
    decreases crs.len(),
{
    let t = s + crs;
    if crs.len() == 0 {
        assert(t =~= s);
    } else {
        assert(t.drop_last() =~= s + crs.drop_last());
        assert(t.last() == crs.last());
        law_trim_cr(s, crs.drop_last());
    }
}

/// A line ends at a line feed, or at a carriage return and a line feed, which
/// are not part of it; what follows is further lines.
pub proof fn law_first_line(line: Seq<char>, rest: Seq<char>)
    requires
        !line.contains('\n'),
    ensures
        spec_lines(line + seq!['\r', '\n'] + rest) == seq![line] + spec_lines(rest),
        line.len() == 0 || line.last() != '\r' ==> spec_lines(line + seq!['\n'] + rest) == seq![line]
            + spec_lines(rest),
{
    let longer = line + seq!['\r'];
    assert forall|i: int| 0 <= i < longer.len() implies longer[i] != '\n' by {
        if i < line.len() {
            assert(line.contains(line[i]));
        }
    }
    assert(line + seq!['\r', '\n'] + rest =~= longer + seq!['\n'] + rest);
    lemma_line_off(longer, rest);
    assert(without_cr(longer) =~= line);
    lemma_line_off(line, rest);
}

proof fn lemma_line_off(line: Seq<char>, rest: Seq<char>)
    requires
        !line.contains('\n'),
    ensures
        spec_lines(line + seq!['\n'] + rest) == seq![without_cr(line)] + spec_lines(rest),
{
    let s = line + seq!['\n'] + rest;
    lemma_split_first(line, '\n', rest);
    lemma_split_len(rest, '\n');
    let pieces = spec_split(s, '\n');
    let more = spec_split(rest, '\n');
    assert(pieces.drop_last() =~= seq![line] + more.drop_last());
    assert(pieces.last() == more.last());
    assert(spec_lines(s) =~= seq![without_cr(line)] + spec_lines(rest));
}

/// What is left behind the last line feed is a line if it is not empty, just
/// as it stands.
pub proof fn law_last_line(line: Seq<char>)
    requires
        !line.contains('\n'),
    ensures
        line.len() > 0 ==> spec_lines(line) == seq![line],
        line.len() == 0 ==> spec_lines(line).len() == 0,
{
    lemma_split_first(line, '\n', Seq::empty());
    assert(seq![line].drop_last() =~= Seq::<Seq<char>>::empty());
    if line.len() > 0 {
        assert(spec_lines(line) =~= seq![line]);
    }
}

/// Of a list of texts the empty ones are left out, and only they.
pub proof fn law_nonempty(parts: Seq<Seq<char>>, text: Seq<char>)
    ensures
        spec_nonempty(Seq::empty()).len() == 0,
        text.len() == 0 ==> spec_nonempty(parts.push(text)) == spec_nonempty(parts),
        text.len() > 0 ==> spec_nonempty(parts.push(text)) == spec_nonempty(parts).push(text),
{
    assert(parts.push(text).drop_last() =~= parts);
}

/// A text filled up to a width is the text and then spaces, or spaces and then
/// the text; one that fills it is left as it stands.
pub proof fn law_pad(s: Seq<char>, width: nat)
    ensures
        s.len() >= width ==> spec_pad_right(s, width) == s && spec_pad_left(s, width) == s,
        s.len() < width ==> {
            &&& spec_pad_right(s, width).len() == width
            &&& spec_pad_left(s, width).len() == width
            &&& spec_pad_right(s, width).take(s.len() as int) == s
            &&& spec_pad_left(s, width).skip(width - s.len()) == s
            &&& forall|i: int| s.len() <= i < width ==> #[trigger] spec_pad_right(s, width)[i] == ' '
            &&& forall|i: int|
                0 <= i < width - s.len() ==> #[trigger] spec_pad_left(s, width)[i] == ' '
        },
{
    if s.len() < width {
        assert(spec_pad_right(s, width).take(s.len() as int) =~= s);
        assert(spec_pad_left(s, width).skip(width - s.len()) =~= s);
    }
}

/// A character is repeated just so many times.
pub proof fn law_repeat(c: char, n: nat)
    ensures
        spec_repeat(c, n).len() == n,
        forall|i: int| 0 <= i < n ==> #[trigger] spec_repeat(c, n)[i] == c,
{
}

/// The decimal digits of a number are digits, stand for the number, and have
/// no zero in front of them.
pub proof fn law_decimal(n: nat)
    ensures
        is_number(spec_decimal(n), 10),
        number_value(spec_decimal(n), 10) == n,
        n > 0 ==> spec_decimal(n)[0] != '0',
        n == 0 ==> spec_decimal(n) == seq!['0'],
        forall|i: int| 0 <= i < spec_decimal(n).len() ==> '0' <= #[trigger] spec_decimal(n)[i] <= '9',
    decreases n,
{
    let digits = spec_decimal(n);
    let digit = ('0' as u32 + n % 10) as char;
    assert('0' <= digit <= '9' && digit_value(digit) == n % 10);
    if n < 10 {
        assert(digits.drop_last() =~= Seq::<char>::empty());
        assert(number_value(digits.drop_last(), 10) == 0);
    } else {
        law_decimal(n / 10);
        let init = spec_decimal(n / 10);
        assert(digits.drop_last() =~= init);
        assert(digits[0] == init[0]);
        assert forall|i: int| 0 <= i < digits.len() implies '0' <= #[trigger] digits[i] <= '9' by {
            if i < init.len() {
                assert(digits[i] == init[i]);
            }
        }
    }
}

/// Lines are written one below the other, each with its ending.
pub proof fn law_write_lines(line: Seq<char>, more: Seq<Seq<char>>, ending: Seq<char>)
    ensures
        spec_write_lines(Seq::empty(), ending).len() == 0,
        spec_write_lines(seq![line] + more, ending) == line + ending + spec_write_lines(more, ending),
{
    assert((seq![line] + more).skip(1) =~= more);
}

/// Texts are put one after the other with nothing between them.
pub proof fn law_concat(parts: Seq<Seq<char>>, text: Seq<char>)
    ensures
        spec_concat(Seq::empty()).len() == 0,
        spec_concat(parts.push(text)) == spec_concat(parts) + text,
{
    assert(parts.push(text).drop_last() =~= parts);
}

} // verus!
