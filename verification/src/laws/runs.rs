//! Laws of where the cards of a text come from.

use crate::laws::cards::{is_inner, law_line_needs_colon, properties};
use crate::outside::ascii_lower;
use crate::parse::{is_begin, is_end, scan_lines, scan_start, spec_parse_vcards, spec_unfold};
use crate::text::{
    lemma_find, lemma_split_len, spec_find, spec_lines, spec_split, spec_trim_cr, without_cr,
};
use vstd::prelude::*;

verus! {

/// Whether the lines from one place to another are those of a card: one that
/// opens it, one that closes it, and between them none that does either.
pub open spec fn is_run(lines: Seq<Seq<char>>, begin: int, end: int) -> bool {
    &&& 0 <= begin < end < lines.len()
    &&& is_begin(lines[begin])
    &&& is_end(lines[end])
    &&& forall|k: int| begin < k < end ==> is_inner(#[trigger] lines[k])
}

/// Where the card begins that is open after the lines, if one is.
pub open spec fn open_at(lines: Seq<Seq<char>>) -> Option<int>
    decreases lines.len(),
{
    if lines.len() == 0 || is_end(lines.last()) {
        None
    } else if is_begin(lines.last()) {
        Some(lines.len() - 1)
    } else {
        open_at(lines.drop_last())
    }
}

/// Where the cards of a list of lines begin and end.
pub open spec fn card_runs(lines: Seq<Seq<char>>) -> Seq<(int, int)>
    decreases lines.len(),
{
    if lines.len() == 0 {
        Seq::empty()
    } else {
        let before = card_runs(lines.drop_last());
        match open_at(lines.drop_last()) {
            Some(begin) => if is_end(lines.last()) {
                before.push((begin, lines.len() - 1))
            } else {
                before
            },
            None => before,
        }
    }
}

/// The lines of a card between the one that opens it and the one that closes
/// it.
pub open spec fn between(lines: Seq<Seq<char>>, run: (int, int)) -> Seq<Seq<char>> {
    lines.subrange(run.0 + 1, run.1)
}

proof fn lemma_begin_or_end(line: Seq<char>)
    ensures
        !(is_begin(line) && is_end(line)),
{
    reveal_strlit("BEGIN:VCARD");
    reveal_strlit("END:VCARD");
    let l = spec_trim_cr(line);
    if is_begin(line) && is_end(line) {
        assert(l.map_values(|c: char| ascii_lower(c)).len() == l.len());
        assert("BEGIN:VCARD"@.map_values(|c: char| ascii_lower(c)).len() == 11);
        assert("END:VCARD"@.map_values(|c: char| ascii_lower(c)).len() == 9);
    }
}

proof fn lemma_open(lines: Seq<Seq<char>>)
    ensures
        match open_at(lines) {
            Some(b) => {
                &&& 0 <= b < lines.len()
                &&& is_begin(lines[b])
                &&& forall|k: int| b < k < lines.len() ==> is_inner(#[trigger] lines[k])
                &&& scan_lines(scan_start(), lines).current == Some(
                    properties(lines.subrange(b + 1, lines.len() as int)),
                )
            },
            None => scan_lines(scan_start(), lines).current is None,
        },
    decreases lines.len(),
{
    if lines.len() > 0 {
        let init = lines.drop_last();
        lemma_open(init);
        lemma_begin_or_end(lines.last());
        if is_begin(lines.last()) {
            assert(lines.subrange(lines.len() as int, lines.len() as int) =~= Seq::<
                Seq<char>,
            >::empty());
        } else if !is_end(lines.last()) {
            if let Some(b) = open_at(init) {
                let body = lines.subrange(b + 1, lines.len() as int);
                assert(body.drop_last() =~= init.subrange(b + 1, init.len() as int));
                assert(body.last() == lines.last());
                assert forall|k: int| b < k < lines.len() implies is_inner(#[trigger] lines[k]) by {
                    if k < init.len() {
                        assert(lines[k] == init[k]);
                    }
                }
            }
        }
    }
}

proof fn lemma_stays_open(lines: Seq<Seq<char>>, b: int)
    requires
        0 <= b < lines.len(),
        is_begin(lines[b]),
        forall|k: int| b < k < lines.len() ==> is_inner(#[trigger] lines[k]),
    ensures
        open_at(lines) == Some(b),
    decreases lines.len(),
{
    let last = lines.len() - 1;
    lemma_begin_or_end(lines[last]);
    if b < last {
        let init = lines.drop_last();
        assert(is_inner(lines[last]));
        assert forall|k: int| b < k < init.len() implies is_inner(#[trigger] init[k]) by {
            assert(init[k] == lines[k]);
        }
        lemma_stays_open(init, b);
    }
}

proof fn lemma_runs(lines: Seq<Seq<char>>)
    ensures
        ({
            let runs = card_runs(lines);
            let cards = scan_lines(scan_start(), lines).cards;
            &&& cards.len() == runs.len()
            &&& forall|k: int|
                0 <= k < runs.len() ==> is_run(lines, (#[trigger] runs[k]).0, runs[k].1) && cards[k]
                    == properties(between(lines, runs[k]))
            &&& forall|k: int, l: int|
                #![trigger runs[k], runs[l]]
                0 <= k < l < runs.len() ==> runs[k].1 < runs[l].0
            &&& open_at(lines) matches Some(b) ==> forall|k: int|
                0 <= k < runs.len() ==> (#[trigger] runs[k]).1 < b
        }),
    decreases lines.len(),
{
    if lines.len() > 0 {
        let init = lines.drop_last();
        let before = card_runs(init);
        let runs = card_runs(lines);
        let state = scan_lines(scan_start(), init);
        lemma_runs(init);
        lemma_open(init);
        lemma_begin_or_end(lines.last());
        assert forall|k: int| 0 <= k < before.len() implies is_run(
            lines,
            (#[trigger] before[k]).0,
            before[k].1,
        ) && between(lines, before[k]) == between(init, before[k]) by {
            let (b, e) = before[k];
            assert(is_run(init, b, e));
            assert(lines[b] == init[b] && lines[e] == init[e]);
            assert forall|j: int| b < j < e implies is_inner(#[trigger] lines[j]) by {
                assert(lines[j] == init[j]);
            }
            assert(between(lines, before[k]) =~= between(init, before[k]));
        }
        if let Some(b) = open_at(init) {
            if is_end(lines.last()) {
                let e = lines.len() - 1;
                assert(lines[b] == init[b]);
                assert forall|j: int| b < j < e implies is_inner(#[trigger] lines[j]) by {
                    assert(lines[j] == init[j]);
                }
                assert(is_run(lines, b, e));
                assert(between(lines, (b, e)) =~= init.subrange(b + 1, init.len() as int));
                assert(runs == before.push((b, e)));
            }
        }
        let cards = scan_lines(scan_start(), lines).cards;
        assert forall|k: int| 0 <= k < runs.len() implies is_run(
            lines,
            (#[trigger] runs[k]).0,
            runs[k].1,
        ) && cards[k] == properties(between(lines, runs[k])) by {
            if k < before.len() {
                assert(runs[k] == before[k]);
                assert(cards[k] == state.cards[k]);
            }
        }
    }
}

proof fn lemma_all_runs(lines: Seq<Seq<char>>, b: int, e: int)
    requires
        is_run(lines, b, e),
    ensures
        card_runs(lines).contains((b, e)),
    decreases lines.len(),
{
    let init = lines.drop_last();
    let before = card_runs(init);
    assert forall|k: int| b < k < e implies is_inner(#[trigger] init[k]) by {
        assert(init[k] == lines[k]);
    }
    assert(init[b] == lines[b]);
    if e < lines.len() - 1 {
        assert(init[e] == lines[e]);
        lemma_all_runs(init, b, e);
        let k = choose|k: int| 0 <= k < before.len() && before[k] == (b, e);
        assert(card_runs(lines)[k] == (b, e));
    } else {
        lemma_stays_open(init, b);
        assert(card_runs(lines)[before.len() as int] == (b, e));
    }
}

/// The cards of any text are its runs of lines from one that opens a card to
/// the next that closes it, all of them and in their order. The properties of
/// a card are those of the lines between the two, none left out.
pub proof fn law_cards_are_runs(content: Seq<char>)
    ensures
        ({
            let lines = spec_lines(spec_unfold(content));
            let runs = card_runs(lines);
            let cards = spec_parse_vcards(content);
            &&& cards.len() == runs.len()
            &&& forall|k: int|
                0 <= k < runs.len() ==> is_run(lines, (#[trigger] runs[k]).0, runs[k].1) && cards[k]
                    == properties(between(lines, runs[k]))
            &&& forall|k: int, l: int|
                #![trigger runs[k], runs[l]]
                0 <= k < l < runs.len() ==> runs[k].1 < runs[l].0
            &&& forall|b: int, e: int| #[trigger] is_run(lines, b, e) ==> runs.contains((b, e))
        }),
{
    let lines = spec_lines(spec_unfold(content));
    lemma_runs(lines);
    assert forall|b: int, e: int| #[trigger] is_run(lines, b, e) implies card_runs(lines).contains(
        (b, e),
    ) by {
        lemma_all_runs(lines, b, e);
    }
}

proof fn lemma_pieces_lack(s: Seq<char>, c: char)
    ensures
        forall|i: int| 0 <= i < spec_split(s, c).len() ==> !(#[trigger] spec_split(s, c)[i]).contains(c),
    decreases s.len(),
{
    lemma_find(s, c);
    let n = spec_find(s, c);
    let pieces = spec_split(s, c);
    if n < s.len() {
        lemma_pieces_lack(s.skip(n + 1), c);
        assert forall|i: int| 0 <= i < pieces.len() implies !(#[trigger] pieces[i]).contains(c) by {
            if i > 0 {
                assert(pieces[i] == spec_split(s.skip(n + 1), c)[i - 1]);
            }
        }
    }
}

proof fn lemma_line_break_free(s: Seq<char>)
    ensures
        forall|i: int| 0 <= i < spec_lines(s).len() ==> !(#[trigger] spec_lines(s)[i]).contains('\n'),
{
    let pieces = spec_split(s, '\n');
    let all = spec_lines(s);
    lemma_pieces_lack(s, '\n');
    lemma_split_len(s, '\n');
    assert forall|i: int| 0 <= i < all.len() implies !(#[trigger] all[i]).contains('\n') by {
        assert(!pieces[i].contains('\n'));
        assert(all[i] == pieces[i] || all[i] == without_cr(pieces[i]));
        assert forall|k: int| 0 <= k < all[i].len() implies all[i][k] != '\n' by {
            assert(pieces[i].contains(pieces[i][k]));
        }
    }
}

proof fn lemma_trimmed_lacks(s: Seq<char>, c: char)
    requires
        !s.contains(c),
    ensures
        !spec_trim_cr(s).contains(c),
    decreases s.len(),
{
    if s.len() > 0 && s.last() == '\r' {
        assert forall|k: int| 0 <= k < s.drop_last().len() implies s.drop_last()[k] != c by {
            assert(s.contains(s[k]));
        }
        lemma_trimmed_lacks(s.drop_last(), c);
    }
}

proof fn lemma_values_break_free(lines: Seq<Seq<char>>)
    requires
        forall|i: int| 0 <= i < lines.len() ==> !(#[trigger] lines[i]).contains('\n'),
    ensures
        forall|i: int|
            0 <= i < properties(lines).len() ==> !(#[trigger] properties(lines)[i]).value.contains(
                '\n',
            ),
    decreases lines.len(),
{
    if lines.len() > 0 {
        let init = lines.drop_last();
        assert forall|i: int| 0 <= i < init.len() implies !(#[trigger] init[i]).contains('\n') by {
            assert(init[i] == lines[i]);
        }
        lemma_values_break_free(init);
        let last = lines[lines.len() - 1];
        let line = spec_trim_cr(last);
        lemma_trimmed_lacks(last, '\n');
        law_line_needs_colon(line);
        lemma_find(line, ':');
        let all = properties(lines);
        let before = properties(init);
        assert forall|i: int| 0 <= i < all.len() implies !(#[trigger] all[i]).value.contains(
            '\n',
        ) by {
            if i < before.len() {
                assert(all[i] == before[i]);
            } else {
                let v = all[i].value;
                let from = spec_find(line, ':') + 1;
                assert(v == line.skip(from));
                assert forall|k: int| 0 <= k < v.len() implies v[k] != '\n' by {
                    assert(line.contains(line[from + k]));
                }
            }
        }
    }
}

/// No property of a card has a line feed in its value as it was written.
pub proof fn law_values_on_one_line(content: Seq<char>)
    ensures
        forall|c: int, i: int|
            0 <= c < spec_parse_vcards(content).len() && 0 <= i < spec_parse_vcards(content)[c].len()
                ==> !(#[trigger] spec_parse_vcards(content)[c][i]).value.contains('\n'),
{
    let lines = spec_lines(spec_unfold(content));
    let runs = card_runs(lines);
    let cards = spec_parse_vcards(content);
    law_cards_are_runs(content);
    lemma_line_break_free(spec_unfold(content));
    assert forall|c: int, i: int| 0 <= c < cards.len() && 0 <= i < cards[c].len() implies !(
    #[trigger] cards[c][i]).value.contains('\n') by {
        let body = between(lines, runs[c]);
        assert(is_run(lines, runs[c].0, runs[c].1));
        assert forall|k: int| 0 <= k < body.len() implies !(#[trigger] body[k]).contains('\n') by {
            assert(body[k] == lines[runs[c].0 + 1 + k]);
        }
        lemma_values_break_free(body);
    }
}

} // verus!
