//! Laws of unfolding.

use crate::laws::sequences::lemma_replace_concat;
use crate::parse::{drop_folds, is_fold_space, spec_unfold};
use crate::text::spec_replace;
use vstd::prelude::*;

verus! {

proof fn lemma_drop_folds_concat(x: Seq<char>, z: Seq<char>)
    requires
        !(x.len() > 0 && x.last() == '\n' && z.len() > 0 && is_fold_space(z[0])),
    ensures
        drop_folds(x + z) == drop_folds(x) + drop_folds(z),
    decreases x.len(),
{
    let s = x + z;
    if x.len() == 0 {
        assert(s =~= z);
        assert(drop_folds(x) + drop_folds(z) =~= drop_folds(z));
    } else if x.len() > 1 && x[0] == '\n' && is_fold_space(x[1]) {
        assert(s.skip(2) =~= x.skip(2) + z);
        lemma_drop_folds_concat(x.skip(2), z);
    } else {
        assert(s.skip(1) =~= x.skip(1) + z);
        lemma_drop_folds_concat(x.skip(1), z);
        assert(seq![x[0]] + (drop_folds(x.skip(1)) + drop_folds(z)) =~= seq![x[0]] + drop_folds(
            x.skip(1),
        ) + drop_folds(z));
        if s.len() > 1 && x.len() == 1 {
            assert(s[1] == z[0]);
        }
    }
}

proof fn lemma_normal_first(b: Seq<char>)
    ensures
        ({
            let n = spec_replace(b, "\r\n"@, "\n"@);
            n.len() > 0 && is_fold_space(n[0]) ==> b.len() > 0 && is_fold_space(b[0])
        }),
{
    reveal_strlit("\r\n");
    reveal_strlit("\n");
}

proof fn lemma_normal_last(a: Seq<char>)
    ensures
        ({
            let n = spec_replace(a, "\r\n"@, "\n"@);
            &&& a.len() > 0 ==> n.len() > 0
            &&& n.len() > 0 && n.last() == '\n' ==> a.len() > 0 && a.last() == '\n'
        }),
    decreases a.len(),
{
    reveal_strlit("\r\n");
    reveal_strlit("\n");
    let pat = "\r\n"@;
    if a.len() >= 2 && a.take(2) == pat {
        assert(a[1] == a.take(2)[1]);
        lemma_normal_last(a.skip(2));
    } else if a.len() >= 2 {
        lemma_normal_last(a.skip(1));
    }
}

proof fn lemma_normal_concat(a: Seq<char>, b: Seq<char>)
    requires
        !(a.len() > 0 && a.last() == '\r' && b.len() > 0 && b[0] == '\n'),
    ensures
        spec_replace(a + b, "\r\n"@, "\n"@) == spec_replace(a, "\r\n"@, "\n"@) + spec_replace(
            b,
            "\r\n"@,
            "\n"@,
        ),
{
    reveal_strlit("\r\n");
    let pat = "\r\n"@;
    assert forall|i: int|
        0 <= i < a.len() < i + pat.len() <= a.len() + b.len() implies #[trigger] (a + b).subrange(
        i,
        i + pat.len(),
    ) != pat by {
        let m = (a + b).subrange(i, i + pat.len());
        assert(m[0] == a.last());
        assert(m[1] == b[0]);
        assert(pat[0] == '\r' && pat[1] == '\n');
    }
    lemma_replace_concat(a, b, pat, "\n"@);
}

/// Two texts unfold one after the other, unless a fold or a CRLF lies across
/// the place where they meet.
pub proof fn law_unfold_concat(a: Seq<char>, b: Seq<char>)
    requires
        !(a.len() > 0 && a.last() == '\n' && b.len() > 0 && is_fold_space(b[0])),
        !(a.len() > 0 && a.last() == '\r' && b.len() > 0 && b[0] == '\n'),
    ensures
        spec_unfold(a + b) == spec_unfold(a) + spec_unfold(b),
{
    lemma_normal_concat(a, b);
    lemma_normal_first(b);
    lemma_normal_last(a);
    lemma_drop_folds_concat(
        spec_replace(a, "\r\n"@, "\n"@),
        spec_replace(b, "\r\n"@, "\n"@),
    );
}

/// A CRLF with one space or tab behind it is a fold: wherever it stands, it
/// is gone after unfolding, and the text before and after it closes up.
pub proof fn law_crlf_fold_removed(a: Seq<char>, space: char, b: Seq<char>)
    requires
        is_fold_space(space),
    ensures
        spec_unfold(a + seq!['\r', '\n', space] + b) == spec_unfold(a) + spec_unfold(b),
{
    let fold = seq!['\r', '\n', space];
    lemma_fold_alone(fold, space);
    lemma_fold_removed(a, fold, b);
}

/// A line feed with one space or tab behind it is a fold too, where no
/// carriage return stands before it.
pub proof fn law_lf_fold_removed(a: Seq<char>, space: char, b: Seq<char>)
    requires
        is_fold_space(space),
        a.len() > 0 ==> a.last() != '\r',
    ensures
        spec_unfold(a + seq!['\n', space] + b) == spec_unfold(a) + spec_unfold(b),
{
    let fold = seq!['\n', space];
    lemma_fold_alone(fold, space);
    lemma_fold_removed(a, fold, b);
}

proof fn lemma_fold_alone(fold: Seq<char>, space: char)
    requires
        is_fold_space(space),
        fold == seq!['\n', space] || fold == seq!['\r', '\n', space],
    ensures
        spec_replace(fold, "\r\n"@, "\n"@) == seq!['\n', space],
{
    reveal_strlit("\r\n");
    reveal_strlit("\n");
    reveal_with_fuel(spec_replace, 4);
    let pat = "\r\n"@;
    let one = seq![space];
    assert(spec_replace(one, pat, "\n"@) == one);
    if fold.len() == 3 {
        assert(fold.take(2) =~= pat);
        assert(fold.skip(2) =~= one);
        assert("\n"@ + one =~= seq!['\n', space]);
    } else {
        assert(fold.take(2)[0] != pat[0]);
        assert(fold.skip(1) =~= one);
        assert(seq![fold[0]] + one =~= seq!['\n', space]);
    }
}

proof fn lemma_fold_removed(a: Seq<char>, fold: Seq<char>, b: Seq<char>)
    requires
        fold.len() >= 2,
        fold.last() != '\r',
        !(a.len() > 0 && a.last() == '\r' && fold[0] == '\n'),
        ({
            let n = spec_replace(fold, "\r\n"@, "\n"@);
            n.len() == 2 && n[0] == '\n' && is_fold_space(n[1])
        }),
    ensures
        spec_unfold(a + fold + b) == spec_unfold(a) + spec_unfold(b),
{
    let na = spec_replace(a, "\r\n"@, "\n"@);
    let nf = spec_replace(fold, "\r\n"@, "\n"@);
    let nb = spec_replace(b, "\r\n"@, "\n"@);
    assert(a + fold + b =~= a + (fold + b));
    lemma_normal_concat(fold, b);
    lemma_normal_concat(a, fold + b);
    lemma_drop_folds_concat(na, nf + nb);
    assert((nf + nb).skip(2) =~= nb);
    assert(drop_folds(nf + nb) == drop_folds(nb));
}

/// A text without CRLF and without folds is left as it stands.
pub proof fn law_unfold_plain(s: Seq<char>)
    requires
        forall|i: int, j: int|
            #![trigger s[i], s[j]]
            0 <= i && j == i + 1 && j < s.len() ==> !(s[i] == '\r' && s[j] == '\n') && !(s[i]
                == '\n' && is_fold_space(s[j])),
    ensures
        spec_unfold(s) == s,
{
    lemma_normal_plain(s);
    lemma_drop_folds_plain(s);
}

proof fn lemma_normal_plain(s: Seq<char>)
    requires
        forall|i: int, j: int|
            #![trigger s[i], s[j]]
            0 <= i && j == i + 1 && j < s.len() ==> !(s[i] == '\r' && s[j] == '\n'),
    ensures
        spec_replace(s, "\r\n"@, "\n"@) == s,
    decreases s.len(),
{
    reveal_strlit("\r\n");
    let pat = "\r\n"@;
    if s.len() >= 2 {
        let rest = s.skip(1);
        assert forall|i: int, j: int|
            #![trigger rest[i], rest[j]]
            0 <= i && j == i + 1 && j < rest.len() implies !(rest[i] == '\r' && rest[j]
            == '\n') by {
            assert(rest[i] == s[i + 1] && rest[j] == s[j + 1]);
        }
        lemma_normal_plain(rest);
        let two = s.take(2);
        assert(two[0] == s[0] && two[1] == s[1]);
        assert(pat[0] == '\r' && pat[1] == '\n');
        assert(s =~= seq![s[0]] + rest);
    }
}

proof fn lemma_drop_folds_plain(s: Seq<char>)
    requires
        forall|i: int, j: int|
            #![trigger s[i], s[j]]
            0 <= i && j == i + 1 && j < s.len() ==> !(s[i] == '\n' && is_fold_space(s[j])),
    ensures
        drop_folds(s) == s,
    decreases s.len(),
{
    if s.len() > 0 {
        let rest = s.skip(1);
        assert forall|i: int, j: int|
            #![trigger rest[i], rest[j]]
            0 <= i && j == i + 1 && j < rest.len() implies !(rest[i] == '\n' && is_fold_space(
            rest[j],
        )) by {
            assert(rest[i] == s[i + 1] && rest[j] == s[j + 1]);
        }
        lemma_drop_folds_plain(rest);
        if s.len() > 1 {
            assert(!(s[0] == '\n' && is_fold_space(s[1])));
        }
        assert(s =~= seq![s[0]] + rest);
    }
}

} // verus!
