//! Facts about texts and lists of texts on which the laws rest.

use crate::text::{lemma_find, spec_find, spec_join, spec_replace, spec_split, spec_splitn};
use vstd::prelude::*;

verus! {

/// The position of the first `c`, from what holds of it.
pub proof fn lemma_find_at(s: Seq<char>, c: char, i: int)
    requires
        0 <= i <= s.len(),
        forall|j: int| 0 <= j < i ==> s[j] != c,
        i < s.len() ==> s[i] == c,
    ensures
        spec_find(s, c) == i,
{
    lemma_find(s, c);
    let f = spec_find(s, c);
    if f < i {
        assert(s[f] == c);
    }
    if f > i {
        assert(s[i] != c);
    }
}

/// A list of two texts or more, joined, is the first, the separator, and the
/// rest joined.
pub proof fn lemma_join_front(parts: Seq<Seq<char>>, sep: Seq<char>)
    requires
        parts.len() >= 2,
    ensures
        spec_join(parts, sep) == parts[0] + sep + spec_join(parts.skip(1), sep),
    decreases parts.len(),
{
    let init = parts.drop_last();
    if parts.len() == 2 {
        assert(init =~= seq![parts[0]]);
        assert(parts.skip(1) =~= seq![parts[1]]);
        assert(spec_join(init, sep) == parts[0]);
        assert(spec_join(parts.skip(1), sep) == parts[1]);
    } else {
        lemma_join_front(init, sep);
        assert(init.skip(1) =~= parts.skip(1).drop_last());
        assert(parts.skip(1).last() == parts.last());
        assert(parts[0] + sep + spec_join(init.skip(1), sep) + sep + parts.last() =~= parts[0] + sep
            + (spec_join(init.skip(1), sep) + sep + parts.last()));
    }
}

/// A text that stands before the first `c` of another text is its first
/// piece.
pub proof fn lemma_split_first(a: Seq<char>, c: char, b: Seq<char>)
    requires
        !a.contains(c),
    ensures
        spec_find(a + seq![c] + b, c) == a.len(),
        (a + seq![c] + b).take(a.len() as int) == a,
        (a + seq![c] + b).skip(a.len() as int + 1) == b,
        spec_split(a + seq![c] + b, c) == seq![a] + spec_split(b, c),
        spec_find(a, c) == a.len(),
        spec_split(a, c) == seq![a],
{
    let s = a + seq![c] + b;
    assert forall|j: int| 0 <= j < a.len() implies s[j] != c by {
        assert(a.contains(a[j]));
    }
    lemma_find_at(s, c, a.len() as int);
    assert(s.take(a.len() as int) =~= a);
    assert(s.skip(a.len() as int + 1) =~= b);
    assert forall|j: int| 0 <= j < a.len() implies a[j] != c by {
        assert(a.contains(a[j]));
    }
    lemma_find_at(a, c, a.len() as int);
}

/// Splitting undoes joining, where no part holds the separator.
pub proof fn lemma_split_join(parts: Seq<Seq<char>>, c: char)
    requires
        parts.len() >= 1,
        forall|i: int| 0 <= i < parts.len() ==> !(#[trigger] parts[i]).contains(c),
    ensures
        spec_split(spec_join(parts, seq![c]), c) == parts,
    decreases parts.len(),
{
    let first = parts[0];
    if parts.len() == 1 {
        lemma_split_first(first, c, Seq::empty());
        assert(parts =~= seq![first]);
    } else {
        let rest = parts.skip(1);
        lemma_join_front(parts, seq![c]);
        assert forall|i: int| 0 <= i < rest.len() implies !(#[trigger] rest[i]).contains(c) by {
            assert(rest[i] == parts[i + 1]);
        }
        lemma_split_join(rest, c);
        lemma_split_first(first, c, spec_join(rest, seq![c]));
        assert(parts =~= seq![first] + rest);
    }
}

/// Splitting into no more pieces than were joined undoes joining, where no
/// part but the last holds the separator.
pub proof fn lemma_splitn_join(parts: Seq<Seq<char>>, c: char)
    requires
        parts.len() >= 1,
        forall|i: int| 0 <= i < parts.len() - 1 ==> !(#[trigger] parts[i]).contains(c),
    ensures
        spec_splitn(spec_join(parts, seq![c]), c, parts.len()) == parts,
    decreases parts.len(),
{
    let first = parts[0];
    if parts.len() == 1 {
        assert(parts =~= seq![first]);
    } else {
        let rest = parts.skip(1);
        lemma_join_front(parts, seq![c]);
        assert forall|i: int| 0 <= i < rest.len() - 1 implies !(#[trigger] rest[i]).contains(
            c,
        ) by {
            assert(rest[i] == parts[i + 1]);
        }
        lemma_splitn_join(rest, c);
        lemma_split_first(first, c, spec_join(rest, seq![c]));
        assert(parts =~= seq![first] + rest);
    }
}

/// What two texts with a separator between them split into.
pub proof fn lemma_split_concat(a: Seq<char>, c: char, b: Seq<char>)
    ensures
        spec_split(a + seq![c] + b, c) == spec_split(a, c) + spec_split(b, c),
    decreases a.len(),
{
    lemma_find(a, c);
    let i = spec_find(a, c);
    let s = a + seq![c] + b;
    if i >= a.len() {
        assert forall|x: int| 0 <= x < a.len() implies a[x] != c by {}
        assert(!a.contains(c));
        lemma_split_first(a, c, b);
    } else {
        let head = a.take(i);
        let tail = a.skip(i + 1);
        assert(!head.contains(c));
        lemma_split_concat(tail, c, b);
        lemma_split_first(head, c, tail + seq![c] + b);
        assert(s =~= head + seq![c] + (tail + seq![c] + b));
        assert(seq![head] + (spec_split(tail, c) + spec_split(b, c)) =~= seq![head] + spec_split(
            tail,
            c,
        ) + spec_split(b, c));
    }
}

/// Replacing in two texts one after the other, where no occurrence lies
/// across the place where they meet.
pub proof fn lemma_replace_concat(
    a: Seq<char>,
    b: Seq<char>,
    pat: Seq<char>,
    with: Seq<char>,
)
    requires
        pat.len() > 0,
        forall|i: int|
            0 <= i < a.len() < i + pat.len() <= a.len() + b.len() ==> #[trigger] (a + b).subrange(
                i,
                i + pat.len(),
            ) != pat,
    ensures
        spec_replace(a + b, pat, with) == spec_replace(a, pat, with) + spec_replace(b, pat, with),
    decreases a.len(),
{
    let n = pat.len() as int;
    let s = a + b;
    if a.len() == 0 {
        assert(s =~= b);
        assert(a + spec_replace(b, pat, with) =~= spec_replace(b, pat, with));
    } else if a.len() >= n && a.take(n) == pat {
        let rest = a.skip(n);
        assert(s.take(n) =~= a.take(n));
        assert(s.skip(n) =~= rest + b);
        assert forall|i: int|
            0 <= i < rest.len() < i + n <= rest.len() + b.len() implies #[trigger] (rest
            + b).subrange(i, i + n) != pat by {
            assert((rest + b).subrange(i, i + n) =~= s.subrange(i + n, i + n + n));
        }
        lemma_replace_concat(rest, b, pat, with);
        assert(with + (spec_replace(rest, pat, with) + spec_replace(b, pat, with)) =~= with
            + spec_replace(rest, pat, with) + spec_replace(b, pat, with));
    } else {
        let rest = a.skip(1);
        assert(s.skip(1) =~= rest + b);
        assert forall|i: int|
            0 <= i < rest.len() < i + n <= rest.len() + b.len() implies #[trigger] (rest
            + b).subrange(i, i + n) != pat by {
            assert((rest + b).subrange(i, i + n) =~= s.subrange(i + 1, i + 1 + n));
        }
        lemma_replace_concat(rest, b, pat, with);
        assert(a =~= seq![a[0]] + rest);
        if s.len() < n {
            assert(spec_replace(s, pat, with) == s);
        } else {
            assert(s.take(n) =~= (a + b).subrange(0int, 0int + pat.len()));
            if a.len() >= n {
                assert(s.take(n) =~= a.take(n));
            }
            assert(s.take(n) != pat);
            assert(spec_replace(s, pat, with) == seq![s[0]] + spec_replace(rest + b, pat, with));
            assert(spec_replace(a, pat, with) =~= seq![a[0]] + spec_replace(rest, pat, with));
            assert(seq![a[0]] + (spec_replace(rest, pat, with) + spec_replace(b, pat, with))
                =~= seq![a[0]] + spec_replace(rest, pat, with) + spec_replace(b, pat, with));
        }
    }
}

/// Replacing changes nothing where the first character of what is looked for
/// does not occur.
pub proof fn lemma_replace_absent(s: Seq<char>, pat: Seq<char>, with: Seq<char>)
    requires
        pat.len() > 0,
        !s.contains(pat[0]),
    ensures
        spec_replace(s, pat, with) == s,
    decreases s.len(),
{
    if s.len() >= pat.len() {
        assert(s.contains(s[0]));
        assert(s.take(pat.len() as int)[0] == s[0]);
        let rest = s.skip(1);
        assert forall|x: char| rest.contains(x) implies s.contains(x) by {
            let k = choose|k: int| 0 <= k < rest.len() && rest[k] == x;
            assert(s[k + 1] == x);
        }
        lemma_replace_absent(rest, pat, with);
        assert(s =~= seq![s[0]] + rest);
    }
}

} // verus!
