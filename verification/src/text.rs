//! Operations on text as a sequence of characters.

use crate::outside::{ascii_lower, ascii_upper, is_white_space, lowercase, no_lower, uppercase};
use vstd::prelude::*;
use vstd::utf8::is_ascii_chars;

verus! {

/// The contents of a list of strings.
pub open spec fn texts(v: Seq<String>) -> Seq<Seq<char>> {
    v.map_values(|s: String| s@)
}

/// The characters of a string.
pub fn chars_of(s: &str) -> (out: Vec<char>)
    ensures
        out@ == s@,
{
    let mut out: Vec<char> = Vec::new();
    for c in it: s.chars()
        invariant
            out@ == it.seq().take(it.index()),
            it.seq() == s@,
    {
        out.push(c);
    }
    assert(s@.take(s@.len() as int) =~= s@);
    out
}

/// The string made of the characters from one position up to another.
pub fn string_between(chars: &Vec<char>, from: usize, to: usize) -> (out: String)
    requires
        from <= to <= chars.len(),
    ensures
        out@ == chars@.subrange(from as int, to as int),
{
    let mut out = String::new();
    let mut i: usize = from;
    while i < to
        invariant
            from <= i <= to <= chars.len(),
            out@ == chars@.subrange(from as int, i as int),
        decreases to - i,
    {
        out.push(chars[i]);
        i = i + 1;
    }
    out
}

/// The string made of the given characters.
pub fn string_of(chars: &Vec<char>) -> (out: String)
    ensures
        out@ == chars@,
{
    assert(chars@.subrange(0, chars@.len() as int) =~= chars@);
    string_between(chars, 0, chars.len())
}

/// Whether two texts are the same.
pub fn same(a: &str, b: &str) -> (out: bool)
    ensures
        out == (a@ == b@),
{
    let x = chars_of(a);
    let y = chars_of(b);
    if x.len() != y.len() {
        return false;
    }
    let mut i: usize = 0;
    while i < x.len()
        invariant
            x@ == a@,
            y@ == b@,
            x.len() == y.len(),
            i <= x.len(),
            x@.take(i as int) == y@.take(i as int),
        decreases x.len() - i,
    {
        if x[i] != y[i] {
            return false;
        }
        assert(x@.take(i + 1) =~= x@.take(i as int).push(x@[i as int]));
        assert(y@.take(i + 1) =~= y@.take(i as int).push(y@[i as int]));
        i = i + 1;
    }
    assert(x@.take(x@.len() as int) =~= x@);
    assert(y@.take(y@.len() as int) =~= y@);
    true
}

/// Whether two texts differ at most in the case of ASCII letters.
pub open spec fn spec_eq_ignore_case(a: Seq<char>, b: Seq<char>) -> bool {
    a.map_values(|c: char| ascii_lower(c)) == b.map_values(|c: char| ascii_lower(c))
}

fn lower_letter(c: char) -> (out: char)
    ensures
        out == ascii_lower(c),
{
    if 'A' <= c && c <= 'Z' {
        ((c as u8) + 32) as char
    } else {
        c
    }
}

/// Whether two texts differ at most in the case of ASCII letters.
pub fn eq_ignore_case(a: &str, b: &str) -> (out: bool)
    ensures
        out == spec_eq_ignore_case(a@, b@),
{
    let x = chars_of(a);
    let y = chars_of(b);
    let ghost lx = a@.map_values(|c: char| ascii_lower(c));
    let ghost ly = b@.map_values(|c: char| ascii_lower(c));
    if x.len() != y.len() {
        assert(lx.len() != ly.len());
        return false;
    }
    let mut i: usize = 0;
    while i < x.len()
        invariant
            x@ == a@,
            y@ == b@,
            x.len() == y.len(),
            lx == a@.map_values(|c: char| ascii_lower(c)),
            ly == b@.map_values(|c: char| ascii_lower(c)),
            i <= x.len(),
            forall|j: int| 0 <= j < i ==> lx[j] == ly[j],
        decreases x.len() - i,
    {
        if lower_letter(x[i]) != lower_letter(y[i]) {
            assert(lx[i as int] != ly[i as int]);
            return false;
        }
        i = i + 1;
    }
    assert(lx =~= ly);
    true
}

/// A text in upper case.
pub open spec fn spec_upper(s: Seq<char>) -> Seq<char> {
    if is_ascii_chars(s) {
        s.map_values(|c: char| ascii_upper(c))
    } else {
        uppercase(s)
    }
}

/// A text in lower case.
pub open spec fn spec_lower(s: Seq<char>) -> Seq<char> {
    if is_ascii_chars(s) {
        s.map_values(|c: char| ascii_lower(c))
    } else {
        lowercase(s)
    }
}

/// A text in upper case.
pub fn upper(s: &str) -> (out: String)
    ensures
        out@ == spec_upper(s@),
        no_lower(out@),
{
    s.to_uppercase()
}

/// A text in lower case.
pub fn lower(s: &str) -> (out: String)
    ensures
        out@ == spec_lower(s@),
{
    s.to_lowercase()
}

/// The position of the first `c` in a text, or the text's length if it has
/// none.
pub open spec fn spec_find(s: Seq<char>, c: char) -> int
    decreases s.len(),
{
    if s.len() == 0 || s[0] == c {
        0
    } else {
        1 + spec_find(s.skip(1), c)
    }
}

/// [`spec_find`] gives the only position before which there is no `c` and
/// at which there is one, or the end.
pub proof fn lemma_find(s: Seq<char>, c: char)
    ensures
        0 <= spec_find(s, c) <= s.len(),
        forall|j: int| 0 <= j < spec_find(s, c) ==> s[j] != c,
        spec_find(s, c) < s.len() ==> s[spec_find(s, c)] == c,
    decreases s.len(),
{
    if s.len() > 0 && s[0] != c {
        let rest = s.skip(1);
        lemma_find(rest, c);
        assert forall|j: int| 0 <= j < spec_find(s, c) implies s[j] != c by {
            if j > 0 {
                assert(rest[j - 1] != c);
            }
        }
    }
}

fn find_from(s: &Vec<char>, start: usize, c: char) -> (out: usize)
    requires
        start <= s.len(),
    ensures
        start <= out <= s.len(),
        out == start + spec_find(s@.skip(start as int), c),
{
    let mut i: usize = start;
    while i < s.len() && s[i] != c
        invariant
            start <= i <= s.len(),
            spec_find(s@.skip(start as int), c) == (i - start) + spec_find(s@.skip(i as int), c),
        decreases s.len() - i,
    {
        assert(s@.skip(i as int).skip(1) =~= s@.skip(i + 1));
        i = i + 1;
    }
    i
}

/// The pieces of a text between the occurrences of `c`.
pub open spec fn spec_split(s: Seq<char>, c: char) -> Seq<Seq<char>>
    decreases s.len(),
    via split_decreases
{
    let i = spec_find(s, c);
    if i >= s.len() {
        seq![s]
    } else {
        seq![s.take(i)] + spec_split(s.skip(i + 1), c)
    }
}

#[via_fn]
proof fn split_decreases(s: Seq<char>, c: char) {
    lemma_find(s, c);
}

/// The pieces of a text between the occurrences of `c`, at most `n` of them:
/// the last piece is then all that is left.
pub open spec fn spec_splitn(s: Seq<char>, c: char, n: nat) -> Seq<Seq<char>>
    decreases n,
{
    let i = spec_find(s, c);
    if n <= 1 || i >= s.len() {
        seq![s]
    } else {
        seq![s.take(i)] + spec_splitn(s.skip(i + 1), c, (n - 1) as nat)
    }
}

/// The pieces of a text between the occurrences of `c`.
pub fn split(s: &str, c: char) -> (out: Vec<String>)
    ensures
        texts(out@) == spec_split(s@, c),
{
    let chars = chars_of(s);
    let mut out: Vec<String> = Vec::new();
    let mut pos: usize = 0;
    assert(s@.skip(0) =~= s@);
    loop
        invariant
            chars@ == s@,
            pos <= chars.len(),
            spec_split(s@, c) == texts(out@) + spec_split(s@.skip(pos as int), c),
        decreases chars.len() - pos,
    {
        let ghost rest = s@.skip(pos as int);
        let ghost before = out@;
        let end: usize = find_from(&chars, pos, c);
        let piece = string_between(&chars, pos, end);
        assert(piece@ =~= rest.take(end - pos));
        out.push(piece);
        assert(texts(out@) =~= texts(before).push(rest.take(end - pos)));
        if end >= chars.len() {
            assert(rest.take(end - pos) =~= rest);
            assert(texts(before) + seq![rest] =~= texts(before).push(rest));
            return out;
        }
        assert(rest.skip(end - pos + 1) =~= s@.skip(end + 1));
        assert(texts(before) + (seq![rest.take(end - pos)] + spec_split(s@.skip(end + 1), c))
            =~= texts(before).push(rest.take(end - pos)) + spec_split(s@.skip(end + 1), c));
        pos = end + 1;
    }
}

/// The pieces of a text between the occurrences of `c`, at most `n` of them.
pub fn splitn(s: &str, c: char, n: usize) -> (out: Vec<String>)
    requires
        n >= 1,
    ensures
        texts(out@) == spec_splitn(s@, c, n as nat),
{
    let chars = chars_of(s);
    let mut out: Vec<String> = Vec::new();
    let mut pos: usize = 0;
    let mut left: usize = n;
    assert(s@.skip(0) =~= s@);
    loop
        invariant
            chars@ == s@,
            pos <= chars.len(),
            left >= 1,
            spec_splitn(s@, c, n as nat) == texts(out@) + spec_splitn(
                s@.skip(pos as int),
                c,
                left as nat,
            ),
        decreases left,
    {
        let ghost rest = s@.skip(pos as int);
        let ghost before = out@;
        let end: usize = find_from(&chars, pos, c);
        if left == 1 || end >= chars.len() {
            let piece = string_between(&chars, pos, chars.len());
            assert(piece@ =~= rest);
            out.push(piece);
            assert(texts(out@) =~= texts(before) + seq![rest]);
            return out;
        }
        let piece = string_between(&chars, pos, end);
        assert(piece@ =~= rest.take(end - pos));
        out.push(piece);
        assert(rest.skip(end - pos + 1) =~= s@.skip(end + 1));
        assert(texts(before) + (seq![rest.take(end - pos)] + spec_splitn(
            s@.skip(end + 1),
            c,
            (left - 1) as nat,
        )) =~= texts(out@) + spec_splitn(s@.skip(end + 1), c, (left - 1) as nat));
        pos = end + 1;
        left = left - 1;
    }
}

/// What stands before and after the first `c`, if there is one.
pub open spec fn spec_split_once(s: Seq<char>, c: char) -> Option<(Seq<char>, Seq<char>)> {
    let i = spec_find(s, c);
    if i >= s.len() {
        None
    } else {
        Some((s.take(i), s.skip(i + 1)))
    }
}

/// What stands before and after the first `c`, if there is one.
pub fn split_once(s: &str, c: char) -> (out: Option<(String, String)>)
    ensures
        match out {
            Some((a, b)) => spec_split_once(s@, c) == Some((a@, b@)),
            None => spec_split_once(s@, c) is None,
        },
{
    let chars = chars_of(s);
    assert(s@.skip(0) =~= s@);
    let i: usize = find_from(&chars, 0, c);
    if i >= chars.len() {
        return None;
    }
    let a = string_between(&chars, 0, i);
    let b = string_between(&chars, i + 1, chars.len());
    assert(a@ =~= s@.take(i as int));
    assert(b@ =~= s@.skip(i + 1));
    Some((a, b))
}

/// A text without the white space that it begins with.
pub open spec fn spec_trim_start(s: Seq<char>) -> Seq<char>
    decreases s.len(),
{
    if s.len() > 0 && is_white_space(s[0]) {
        spec_trim_start(s.skip(1))
    } else {
        s
    }
}

/// A text without the white space that it ends with.
pub open spec fn spec_trim_end(s: Seq<char>) -> Seq<char>
    decreases s.len(),
{
    if s.len() > 0 && is_white_space(s.last()) {
        spec_trim_end(s.drop_last())
    } else {
        s
    }
}

/// A text without the white space at either end.
pub open spec fn spec_trim(s: Seq<char>) -> Seq<char> {
    spec_trim_end(spec_trim_start(s))
}

/// A text without the white space at either end.
pub fn trim(s: &str) -> (out: String)
    ensures
        out@ == spec_trim(s@),
{
    let chars = chars_of(s);
    let mut from: usize = 0;
    assert(s@.skip(0) =~= s@);
    while from < chars.len() && chars[from].is_whitespace()
        invariant
            chars@ == s@,
            from <= chars.len(),
            spec_trim_start(s@) == spec_trim_start(s@.skip(from as int)),
        ensures
            from <= chars.len(),
            spec_trim_start(s@) == s@.skip(from as int),
        decreases chars.len() - from,
    {
        assert(s@.skip(from as int).skip(1) =~= s@.skip(from + 1));
        from = from + 1;
    }
    let mut to: usize = chars.len();
    assert(s@.subrange(from as int, to as int) =~= s@.skip(from as int));
    while to > from && chars[to - 1].is_whitespace()
        invariant
            chars@ == s@,
            from <= to <= chars.len(),
            spec_trim(s@) == spec_trim_end(s@.subrange(from as int, to as int)),
        ensures
            from <= to <= chars.len(),
            spec_trim(s@) == s@.subrange(from as int, to as int),
        decreases to,
    {
        assert(s@.subrange(from as int, to as int).drop_last() =~= s@.subrange(
            from as int,
            to - 1,
        ));
        to = to - 1;
    }
    string_between(&chars, from, to)
}

/// A text without the carriage returns that it ends with.
pub open spec fn spec_trim_cr(s: Seq<char>) -> Seq<char>
    decreases s.len(),
{
    if s.len() > 0 && s.last() == '\r' {
        spec_trim_cr(s.drop_last())
    } else {
        s
    }
}

/// A text without the carriage returns that it ends with.
pub fn trim_cr(s: &str) -> (out: String)
    ensures
        out@ == spec_trim_cr(s@),
{
    let chars = chars_of(s);
    let mut to: usize = chars.len();
    assert(s@.take(s@.len() as int) =~= s@);
    while to > 0 && chars[to - 1] == '\r'
        invariant
            chars@ == s@,
            to <= chars.len(),
            spec_trim_cr(s@) == spec_trim_cr(s@.take(to as int)),
        decreases to,
    {
        assert(s@.take(to as int).drop_last() =~= s@.take(to - 1));
        to = to - 1;
    }
    let out = string_between(&chars, 0, to);
    assert(out@ =~= s@.take(to as int));
    out
}

/// A text in which each occurrence of `pat` is replaced by `with`. The
/// occurrences are taken from the left and do not overlap.
pub open spec fn spec_replace(s: Seq<char>, pat: Seq<char>, with: Seq<char>) -> Seq<char>
    decreases s.len(),
{
    if pat.len() == 0 || s.len() < pat.len() {
        s
    } else if s.take(pat.len() as int) == pat {
        with + spec_replace(s.skip(pat.len() as int), pat, with)
    } else {
        seq![s[0]] + spec_replace(s.skip(1), pat, with)
    }
}

fn occurs_at(s: &Vec<char>, pos: usize, pat: &Vec<char>) -> (out: bool)
    requires
        pos + pat.len() <= s.len(),
    ensures
        out == (s@.skip(pos as int).take(pat@.len() as int) == pat@),
{
    let ghost head = s@.skip(pos as int).take(pat@.len() as int);
    let mut i: usize = 0;
    while i < pat.len()
        invariant
            pos + pat.len() <= s.len(),
            head == s@.skip(pos as int).take(pat@.len() as int),
            i <= pat.len(),
            forall|j: int| 0 <= j < i ==> head[j] == pat@[j],
        decreases pat.len() - i,
    {
        if s[pos + i] != pat[i] {
            assert(head[i as int] != pat@[i as int]);
            return false;
        }
        i = i + 1;
    }
    assert(head =~= pat@);
    true
}

/// A text in which each occurrence of `pat` is replaced by `with`.
pub fn replace(s: &str, pat: &str, with: &str) -> (out: String)
    requires
        pat@.len() > 0,
    ensures
        out@ == spec_replace(s@, pat@, with@),
{
    let chars = chars_of(s);
    let p = chars_of(pat);
    let mut out = String::new();
    let mut pos: usize = 0;
    assert(s@.skip(0) =~= s@);
    while pos < chars.len()
        invariant
            chars@ == s@,
            p@ == pat@,
            p.len() > 0,
            pos <= chars.len(),
            spec_replace(s@, pat@, with@) == out@ + spec_replace(s@.skip(pos as int), pat@, with@),
        decreases chars.len() - pos,
    {
        let ghost rest = s@.skip(pos as int);
        let ghost before = out@;
        if chars.len() - pos >= p.len() && occurs_at(&chars, pos, &p) {
            out.append(with);
            assert(rest.skip(pat@.len() as int) =~= s@.skip(pos + pat@.len()));
            assert(before + (with@ + spec_replace(s@.skip(pos + pat@.len()), pat@, with@))
                =~= out@ + spec_replace(s@.skip(pos + pat@.len()), pat@, with@));
            pos = pos + p.len();
        } else {
            out.push(chars[pos]);
            assert(rest.skip(1) =~= s@.skip(pos + 1));
            proof {
                if rest.len() < pat@.len() {
                    assert(spec_replace(rest, pat@, with@) == rest);
                    assert(rest =~= seq![rest[0]] + rest.skip(1));
                }
            }
            assert(before + (seq![rest[0]] + spec_replace(s@.skip(pos + 1), pat@, with@)) =~= out@
                + spec_replace(s@.skip(pos + 1), pat@, with@));
            pos = pos + 1;
        }
    }
    assert(s@.skip(pos as int) =~= Seq::<char>::empty());
    assert(out@ + Seq::<char>::empty() =~= out@);
    out
}

/// A text without one carriage return at its end.
pub open spec fn without_cr(s: Seq<char>) -> Seq<char> {
    if s.len() > 0 && s.last() == '\r' {
        s.drop_last()
    } else {
        s
    }
}

/// The lines of a text. A line ends at a line feed or at a carriage return
/// and a line feed; the last line need not be ended, and an empty one that
/// is not ended does not count.
pub open spec fn spec_lines(s: Seq<char>) -> Seq<Seq<char>> {
    let pieces = spec_split(s, '\n');
    let ended = pieces.drop_last().map_values(|p: Seq<char>| without_cr(p));
    if pieces.last().len() == 0 {
        ended
    } else {
        ended.push(pieces.last())
    }
}

/// A text has at least one piece between separators.
pub proof fn lemma_split_len(s: Seq<char>, c: char)
    ensures
        spec_split(s, c).len() >= 1,
{
}

fn drop_cr(s: &str) -> (out: String)
    ensures
        out@ == without_cr(s@),
{
    let chars = chars_of(s);
    if chars.len() > 0 && chars[chars.len() - 1] == '\r' {
        let out = string_between(&chars, 0, chars.len() - 1);
        assert(out@ =~= s@.drop_last());
        out
    } else {
        string_of(&chars)
    }
}

/// The lines of a text.
pub fn lines(s: &str) -> (out: Vec<String>)
    ensures
        texts(out@) == spec_lines(s@),
{
    let pieces = split(s, '\n');
    let ghost model = spec_split(s@, '\n');
    let ghost ended = model.drop_last().map_values(|p: Seq<char>| without_cr(p));
    proof {
        lemma_split_len(s@, '\n');
        assert(texts(pieces@).len() == pieces@.len());
    }
    let last: usize = pieces.len() - 1;
    let mut out: Vec<String> = Vec::new();
    let mut i: usize = 0;
    while i < last
        invariant
            pieces.len() == last + 1,
            texts(pieces@) == model,
            ended == model.drop_last().map_values(|p: Seq<char>| without_cr(p)),
            i <= last,
            texts(out@) == ended.take(i as int),
        decreases last - i,
    {
        let ghost before = out@;
        assert(texts(pieces@)[i as int] == pieces@[i as int]@);
        let line = drop_cr(&pieces[i]);
        out.push(line);
        assert(texts(out@) =~= texts(before).push(ended[i as int]));
        assert(ended.take(i + 1) =~= ended.take(i as int).push(ended[i as int]));
        i = i + 1;
    }
    assert(ended.take(last as int) =~= ended);
    assert(texts(pieces@)[last as int] == pieces@[last as int]@);
    if !pieces[last].as_str().is_empty() {
        let ghost before = out@;
        out.push(pieces[last].clone());
        assert(texts(out@) =~= texts(before).push(model.last()));
    }
    out
}

/// The texts of a list one after the other, with `sep` between them.
pub open spec fn spec_join(parts: Seq<Seq<char>>, sep: Seq<char>) -> Seq<char>
    decreases parts.len(),
{
    if parts.len() == 0 {
        Seq::empty()
    } else if parts.len() == 1 {
        parts[0]
    } else {
        spec_join(parts.drop_last(), sep) + sep + parts.last()
    }
}

/// The texts of a list one after the other, with `sep` between them.
pub fn join(parts: &Vec<String>, sep: &str) -> (out: String)
    ensures
        out@ == spec_join(texts(parts@), sep@),
{
    let mut out = String::new();
    let mut i: usize = 0;
    let ghost model = texts(parts@);
    while i < parts.len()
        invariant
            model == texts(parts@),
            i <= parts.len(),
            out@ == spec_join(model.take(i as int), sep@),
        decreases parts.len() - i,
    {
        let ghost next = model.take(i + 1);
        assert(next.drop_last() =~= model.take(i as int));
        if i > 0 {
            out.append(sep);
        }
        out.append(&parts[i]);
        assert(next.last() == parts@[i as int]@);
        assert(out@ =~= spec_join(next, sep@));
        i = i + 1;
    }
    assert(model.take(model.len() as int) =~= model);
    out
}

/// Lines one below the other, each with the given ending.
pub open spec fn spec_write_lines(lines: Seq<Seq<char>>, ending: Seq<char>) -> Seq<char>
    decreases lines.len(),
{
    if lines.len() == 0 {
        Seq::empty()
    } else {
        lines[0] + ending + spec_write_lines(lines.skip(1), ending)
    }
}

/// Lines one below the other, each with the given ending.
pub fn write_lines(lines: &Vec<String>, ending: &str) -> (out: String)
    ensures
        out@ == spec_write_lines(texts(lines@), ending@),
{
    let mut out = String::new();
    let mut i: usize = 0;
    let ghost model = texts(lines@);
    assert(model.skip(0) =~= model);
    while i < lines.len()
        invariant
            model == texts(lines@),
            i <= lines.len(),
            spec_write_lines(model, ending@) == out@ + spec_write_lines(
                model.skip(i as int),
                ending@,
            ),
        decreases lines.len() - i,
    {
        let ghost before = out@;
        let ghost rest = model.skip(i as int);
        out.append(&lines[i]);
        out.append(ending);
        assert(rest[0] == lines@[i as int]@);
        assert(rest.skip(1) =~= model.skip(i + 1));
        assert(before + (rest[0] + ending@ + spec_write_lines(model.skip(i + 1), ending@)) =~= out@
            + spec_write_lines(model.skip(i + 1), ending@));
        i = i + 1;
    }
    assert(model.skip(model.len() as int) =~= Seq::<Seq<char>>::empty());
    assert(out@ + Seq::<char>::empty() =~= out@);
    out
}

/// The texts of a list that are not empty.
pub open spec fn spec_nonempty(parts: Seq<Seq<char>>) -> Seq<Seq<char>>
    decreases parts.len(),
{
    if parts.len() == 0 {
        Seq::empty()
    } else if parts.last().len() == 0 {
        spec_nonempty(parts.drop_last())
    } else {
        spec_nonempty(parts.drop_last()).push(parts.last())
    }
}

/// The texts of a list that are not empty.
pub fn nonempty(parts: &Vec<String>) -> (out: Vec<String>)
    ensures
        texts(out@) == spec_nonempty(texts(parts@)),
{
    let mut out: Vec<String> = Vec::new();
    let mut i: usize = 0;
    let ghost model = texts(parts@);
    while i < parts.len()
        invariant
            model == texts(parts@),
            i <= parts.len(),
            texts(out@) == spec_nonempty(model.take(i as int)),
        decreases parts.len() - i,
    {
        let ghost next = model.take(i + 1);
        let ghost before = out@;
        assert(next.drop_last() =~= model.take(i as int));
        assert(next.last() == parts@[i as int]@);
        if !parts[i].as_str().is_empty() {
            out.push(parts[i].clone());
            assert(texts(out@) =~= texts(before).push(next.last()));
        }
        i = i + 1;
    }
    assert(model.take(model.len() as int) =~= model);
    out
}

/// The texts of a list that are not empty, with `sep` between them.
pub open spec fn spec_join_nonempty(parts: Seq<Seq<char>>, sep: Seq<char>) -> Seq<char> {
    spec_join(spec_nonempty(parts), sep)
}

/// The texts of a list that are not empty, with `sep` between them.
pub fn join_nonempty(parts: &Vec<String>, sep: &str) -> (out: String)
    ensures
        out@ == spec_join_nonempty(texts(parts@), sep@),
{
    join(&nonempty(parts), sep)
}

/// Each text of a list without white space at either end.
pub open spec fn spec_trim_each(parts: Seq<Seq<char>>) -> Seq<Seq<char>> {
    parts.map_values(|p: Seq<char>| spec_trim(p))
}

/// Each text of a list without white space at either end.
pub fn trim_each(parts: &Vec<String>) -> (out: Vec<String>)
    ensures
        texts(out@) == spec_trim_each(texts(parts@)),
{
    let mut out: Vec<String> = Vec::new();
    let mut i: usize = 0;
    let ghost model = spec_trim_each(texts(parts@));
    while i < parts.len()
        invariant
            model == spec_trim_each(texts(parts@)),
            i <= parts.len(),
            texts(out@) == model.take(i as int),
        decreases parts.len() - i,
    {
        let ghost before = out@;
        out.push(trim(&parts[i]));
        assert(texts(out@) =~= texts(before).push(model[i as int]));
        assert(model.take(i + 1) =~= model.take(i as int).push(model[i as int]));
        i = i + 1;
    }
    assert(model.take(model.len() as int) =~= model);
    out
}

/// A character so many times over.
pub open spec fn spec_repeat(c: char, n: nat) -> Seq<char> {
    Seq::new(n, |i: int| c)
}

/// A character so many times over.
pub fn repeat(c: char, n: usize) -> (out: String)
    ensures
        out@ == spec_repeat(c, n as nat),
{
    let mut out = String::new();
    let mut i: usize = 0;
    while i < n
        invariant
            i <= n,
            out@ == spec_repeat(c, i as nat),
        decreases n - i,
    {
        out.push(c);
        i = i + 1;
        assert(out@ =~= spec_repeat(c, i as nat));
    }
    assert(out@ =~= spec_repeat(c, n as nat));
    out
}

/// A text filled up with spaces on the right to a width.
pub open spec fn spec_pad_right(s: Seq<char>, width: nat) -> Seq<char> {
    if s.len() < width {
        s + spec_repeat(' ', (width - s.len()) as nat)
    } else {
        s
    }
}

/// A text filled up with spaces on the left to a width.
pub open spec fn spec_pad_left(s: Seq<char>, width: nat) -> Seq<char> {
    if s.len() < width {
        spec_repeat(' ', (width - s.len()) as nat) + s
    } else {
        s
    }
}

/// The number of characters of a text.
pub fn count(s: &str) -> (out: usize)
    ensures
        out == s@.len(),
{
    chars_of(s).len()
}

/// A text filled up with spaces on the right to a width.
pub fn pad_right(s: &str, width: usize) -> (out: String)
    ensures
        out@ == spec_pad_right(s@, width as nat),
{
    let mut out = s.to_owned();
    let n: usize = count(s);
    if n < width {
        out.append(&repeat(' ', width - n));
    }
    out
}

/// A text filled up with spaces on the left to a width.
pub fn pad_left(s: &str, width: usize) -> (out: String)
    ensures
        out@ == spec_pad_left(s@, width as nat),
{
    let n: usize = count(s);
    if n < width {
        let mut out = repeat(' ', width - n);
        out.append(s);
        out
    } else {
        s.to_owned()
    }
}

/// A number in decimal digits.
pub open spec fn spec_decimal(n: nat) -> Seq<char>
    decreases n,
{
    let digit = ('0' as u32 + n % 10) as char;
    if n < 10 {
        seq![digit]
    } else {
        spec_decimal(n / 10).push(digit)
    }
}

/// A number in decimal digits.
pub fn decimal(n: usize) -> (out: String)
    ensures
        out@ == spec_decimal(n as nat),
    decreases n,
{
    let mut out = if n < 10 {
        String::new()
    } else {
        decimal(n / 10)
    };
    out.push((48u8 + (n % 10) as u8) as char);
    assert(n < 10 ==> out@ =~= spec_decimal(n as nat));
    out
}

} // verus!
