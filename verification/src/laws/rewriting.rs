//! The law of lines that are written again.

use crate::card::PropertyModel;
use crate::laws::cards::{
    is_simple, is_writable, is_writable_param, law_line_reads_back, write_line,
};
use crate::outside::ascii_upper;
use crate::parse::{
    canonical_param, canonical_params, spec_parse_line, spec_split_line, split_param, LineModel,
};
use crate::text::{lemma_find, spec_find, spec_split, spec_split_once, spec_upper};
use vstd::prelude::*;
use vstd::utf8::is_ascii_chars;

verus! {

/// The parts of the line `NAME;KEY=value:value` that a property is written as.
pub open spec fn written(p: PropertyModel) -> LineModel {
    LineModel {
        name: p.name,
        params: p.params.map_values(|q: (Seq<char>, Seq<char>)| (Some(q.0), q.1)),
        value: p.value,
    }
}

/// Whether every character of a text occurs in another text.
spec fn is_within(a: Seq<char>, s: Seq<char>) -> bool {
    forall|i: int| 0 <= i < a.len() ==> s.contains(#[trigger] a[i])
}

proof fn lemma_within(a: Seq<char>, s: Seq<char>)
    requires
        is_within(a, s),
    ensures
        is_ascii_chars(s) ==> is_ascii_chars(a),
        forall|c: char| !s.contains(c) ==> !#[trigger] a.contains(c),
{
    if is_ascii_chars(s) {
        assert forall|i: int| 0 <= i < a.len() implies '\0' <= #[trigger] a[i] <= '\u{7f}' by {
            let k = choose|k: int| 0 <= k < s.len() && s[k] == a[i];
            assert('\0' <= s[k] <= '\u{7f}');
        }
    }
}

proof fn lemma_once_within(s: Seq<char>, c: char)
    ensures
        spec_split_once(s, c) matches Some((a, b)) ==> is_within(a, s) && is_within(b, s)
            && !a.contains(c),
        spec_split_once(s, c) is None ==> !s.contains(c),
{
    lemma_find(s, c);
    let n = spec_find(s, c);
    if n < s.len() {
        assert forall|i: int| 0 <= i < s.take(n).len() implies s.contains(
            #[trigger] s.take(n)[i],
        ) by {
            assert(s[i] == s.take(n)[i]);
        }
        assert forall|i: int| 0 <= i < s.skip(n + 1).len() implies s.contains(
            #[trigger] s.skip(n + 1)[i],
        ) by {
            assert(s[n + 1 + i] == s.skip(n + 1)[i]);
        }
    }
}

proof fn lemma_pieces_within(s: Seq<char>, c: char)
    ensures
        forall|i: int|
            0 <= i < spec_split(s, c).len() ==> is_within(#[trigger] spec_split(s, c)[i], s)
                && !spec_split(s, c)[i].contains(c),
    decreases s.len(),
{
    lemma_find(s, c);
    lemma_once_within(s, c);
    let n = spec_find(s, c);
    let pieces = spec_split(s, c);
    if n < s.len() {
        let rest = s.skip(n + 1);
        lemma_pieces_within(rest, c);
        assert forall|i: int| 0 <= i < pieces.len() implies is_within(#[trigger] pieces[i], s)
            && !pieces[i].contains(c) by {
            if i > 0 {
                assert(pieces[i] == spec_split(rest, c)[i - 1]);
                assert forall|k: int| 0 <= k < pieces[i].len() implies s.contains(
                    #[trigger] pieces[i][k],
                ) by {
                    let j = choose|j: int| 0 <= j < rest.len() && rest[j] == pieces[i][k];
                    assert(s[n + 1 + j] == rest[j]);
                }
            }
        }
    } else {
        assert forall|k: int| 0 <= k < s.len() implies s.contains(#[trigger] s[k]) by {}
    }
}

proof fn lemma_upper(s: Seq<char>)
    requires
        is_ascii_chars(s),
    ensures
        is_ascii_chars(spec_upper(s)),
        spec_upper(spec_upper(s)) == spec_upper(s),
        forall|c: char| !('A' <= c <= 'Z') && !s.contains(c) ==> !#[trigger] spec_upper(s).contains(c),
{
    let u = spec_upper(s);
    assert(u =~= s.map_values(|c: char| ascii_upper(c)));
    assert forall|i: int| 0 <= i < u.len() implies '\0' <= #[trigger] u[i] <= '\u{7f}' by {
        assert('\0' <= s[i] <= '\u{7f}');
    }
    assert(spec_upper(u) =~= u);
    assert forall|c: char| !('A' <= c <= 'Z') && !s.contains(c) implies !#[trigger] u.contains(
        c,
    ) by {
        assert forall|i: int| 0 <= i < u.len() implies u[i] != c by {
            assert(s.contains(s[i]));
        }
    }
}

proof fn lemma_param_again(part: Seq<char>)
    requires
        is_ascii_chars(part),
        is_simple(part),
    ensures
        ({
            let q = canonical_param(split_param(part));
            is_writable_param((Some(q.0), q.1)) && canonical_param((Some(q.0), q.1)) == q
        }),
{
    reveal_strlit("TYPE");
    lemma_once_within(part, '=');
    let split = split_param(part);
    match split.0 {
        Some(key) => {
            lemma_within(key, part);
            lemma_within(split.1, part);
            lemma_upper(key);
        },
        None => {
            let t = "TYPE"@;
            assert(is_ascii_chars(t));
            assert(spec_upper(t) =~= t);
        },
    }
}

/// A property that was parsed from an ASCII line, written out again with its
/// name, its keys and its values, is parsed as itself. Its name may not hold
/// a full stop, which would be read as the end of a group.
pub proof fn law_parsed_line_reads_back(line: Seq<char>, p: PropertyModel)
    requires
        is_ascii_chars(line),
        spec_parse_line(line) == Some(p),
        !p.name.contains('.'),
    ensures
        spec_parse_line(write_line(written(p))) == Some(p),
{
    lemma_once_within(line, ':');
    let (head, value) = spec_split_once(line, ':')->0;
    let pieces = spec_split(head, ';');
    let parts = spec_split_line(line)->0;
    let again = written(p);
    lemma_within(head, line);
    lemma_pieces_within(head, ';');
    assert forall|i: int| 0 <= i < pieces.len() implies is_simple(#[trigger] pieces[i])
        && is_ascii_chars(pieces[i]) by {
        lemma_within(pieces[i], head);
    }
    lemma_once_within(pieces[0], '.');
    assert(is_within(parts.name, pieces[0])) by {
        if spec_split_once(pieces[0], '.') is None {
            assert forall|k: int| 0 <= k < pieces[0].len() implies pieces[0].contains(
                #[trigger] pieces[0][k],
            ) by {}
        }
    }
    lemma_within(parts.name, pieces[0]);
    lemma_upper(parts.name);
    assert forall|i: int| 0 <= i < p.params.len() implies is_writable_param(
        #[trigger] again.params[i],
    ) && canonical_param(again.params[i]) == p.params[i] by {
        assert(parts.params[i] == split_param(pieces.skip(1)[i]));
        assert(pieces.skip(1)[i] == pieces[i + 1]);
        lemma_param_again(pieces[i + 1]);
    }
    assert(is_writable(again));
    law_line_reads_back(again);
    assert(canonical_params(again.params) =~= p.params);
}

} // verus!
