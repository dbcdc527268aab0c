//! Laws of parsing: what was written as a card is read as that card.

use crate::card::PropertyModel;
use crate::laws::folding::{
    law_crlf_fold_removed, law_lf_fold_removed, law_unfold_concat, law_unfold_plain,
};
use crate::laws::sequences::{
    lemma_join_front, lemma_split_concat, lemma_split_first, lemma_split_join,
};
use crate::parse::{
    canonical, is_begin, is_end, is_fold_space, scan_line, scan_lines, scan_start, spec_parse_line,
    spec_parse_vcards, spec_scan, spec_split_line, spec_unfold, split_param, split_params,
    LineModel, ScanModel,
};
use crate::text::{
    lemma_find, spec_find, spec_join, spec_lines, spec_replace, spec_split,
    spec_trim_cr, spec_write_lines, without_cr,
};
use vstd::prelude::*;

verus! {

/// A line holds a property exactly if it has a colon, and the value of the
/// property is what stands behind the first one.
pub proof fn law_line_needs_colon(line: Seq<char>)
    ensures
        spec_parse_line(line) is Some <==> line.contains(':'),
        spec_parse_line(line) matches Some(p) ==> p.value == line.skip(spec_find(line, ':') + 1),
{
    lemma_find(line, ':');
    if spec_find(line, ':') >= line.len() {
        assert forall|i: int| 0 <= i < line.len() implies line[i] != ':' by {}
    }
}

/// A parameter as it is written.
pub open spec fn write_param(p: (Option<Seq<char>>, Seq<char>)) -> Seq<char> {
    match p.0 {
        Some(key) => key + seq!['='] + p.1,
        None => p.1,
    }
}

/// The name and the parameters of a line as they are written.
pub open spec fn write_head(parts: LineModel) -> Seq<Seq<char>> {
    seq![parts.name] + parts.params.map_values(
        |p: (Option<Seq<char>>, Seq<char>)| write_param(p),
    )
}

/// A line as it is written: `NAME;KEY=value;TOKEN:value`.
pub open spec fn write_line(parts: LineModel) -> Seq<char> {
    spec_join(write_head(parts), seq![';']) + seq![':'] + parts.value
}

/// Whether a text has none of the characters that part a line.
pub open spec fn is_simple(s: Seq<char>) -> bool {
    !s.contains(';') && !s.contains(':')
}

/// Whether a parameter can be written so that it is read as that parameter.
pub open spec fn is_writable_param(p: (Option<Seq<char>>, Seq<char>)) -> bool {
    &&& is_simple(p.1)
    &&& match p.0 {
        Some(key) => is_simple(key) && !key.contains('='),
        None => !p.1.contains('='),
    }
}

/// Whether a line can be written so that it is read as that line.
pub open spec fn is_writable(parts: LineModel) -> bool {
    &&& is_simple(parts.name)
    &&& !parts.name.contains('.')
    &&& forall|i: int| 0 <= i < parts.params.len() ==> is_writable_param(#[trigger] parts.params[i])
}

proof fn lemma_join_lacks(parts: Seq<Seq<char>>, sep: char, c: char)
    requires
        sep != c,
        forall|i: int| 0 <= i < parts.len() ==> !(#[trigger] parts[i]).contains(c),
    ensures
        !spec_join(parts, seq![sep]).contains(c),
    decreases parts.len(),
{
    if parts.len() >= 2 {
        let init = parts.drop_last();
        assert forall|i: int| 0 <= i < init.len() implies !(#[trigger] init[i]).contains(c) by {
            assert(init[i] == parts[i]);
        }
        lemma_join_lacks(init, sep, c);
        let a = spec_join(init, seq![sep]);
        let whole = a + seq![sep] + parts.last();
        assert(!parts[parts.len() - 1].contains(c));
        assert forall|k: int| 0 <= k < whole.len() implies whole[k] != c by {
            if k < a.len() {
                assert(a.contains(a[k]));
            } else if k > a.len() {
                let j = k - a.len() - 1;
                assert(parts.last()[j] == whole[k]);
                assert(parts.last().contains(parts.last()[j]));
            }
        }
    }
}

proof fn lemma_absent_concat(a: Seq<char>, b: Seq<char>, c: char)
    requires
        !a.contains(c),
        !b.contains(c),
    ensures
        !(a + b).contains(c),
{
    let s = a + b;
    assert forall|k: int| 0 <= k < s.len() implies s[k] != c by {
        if k < a.len() {
            assert(a.contains(a[k]));
        } else {
            assert(b.contains(b[k - a.len()]));
        }
    }
}

proof fn lemma_param_reads_back(p: (Option<Seq<char>>, Seq<char>))
    requires
        is_writable_param(p),
    ensures
        split_param(write_param(p)) == p,
        is_simple(write_param(p)),
{
    match p.0 {
        Some(key) => {
            lemma_split_first(key, '=', p.1);
            assert(!seq!['='].contains(';') && !seq!['='].contains(':'));
            lemma_absent_concat(key, seq!['='], ';');
            lemma_absent_concat(key, seq!['='], ':');
            lemma_absent_concat(key + seq!['='], p.1, ';');
            lemma_absent_concat(key + seq!['='], p.1, ':');
        },
        None => {
            lemma_split_first(p.1, '=', Seq::empty());
        },
    }
}

/// A line reads back as the parts from which it was written.
pub proof fn law_line_reads_back(parts: LineModel)
    requires
        is_writable(parts),
    ensures
        spec_split_line(write_line(parts)) == Some(parts),
        spec_parse_line(write_line(parts)) == Some(canonical(parts)),
{
    let pieces = write_head(parts);
    let head = spec_join(pieces, seq![';']);
    assert forall|i: int| 0 <= i < pieces.len() implies is_simple(#[trigger] pieces[i]) by {
        if i > 0 {
            assert(pieces[i] == write_param(parts.params[i - 1]));
            lemma_param_reads_back(parts.params[i - 1]);
        }
    }
    lemma_join_lacks(pieces, ';', ':');
    lemma_split_first(head, ':', parts.value);
    lemma_split_join(pieces, ';');
    lemma_split_first(parts.name, '.', Seq::empty());
    assert(pieces[0] == parts.name);
    assert(split_params(pieces.skip(1)) =~= parts.params) by {
        assert forall|i: int| 0 <= i < parts.params.len() implies #[trigger] split_params(
            pieces.skip(1),
        )[i] == parts.params[i] by {
            assert(pieces.skip(1)[i] == write_param(parts.params[i]));
            lemma_param_reads_back(parts.params[i]);
        }
    }
}

/// A group in front of the name makes no difference.
pub proof fn law_group_ignored(group: Seq<char>, parts: LineModel)
    requires
        is_writable(parts),
        is_simple(group),
        !group.contains('.'),
    ensures
        spec_parse_line(group + seq!['.'] + write_line(parts)) == spec_parse_line(
            write_line(parts),
        ),
{
    law_line_reads_back(parts);
    let pieces = write_head(parts);
    let named = group + seq!['.'] + parts.name;
    let grouped = seq![named] + pieces.skip(1);
    let line = group + seq!['.'] + write_line(parts);
    assert(!seq!['.'].contains(';') && !seq!['.'].contains(':'));
    lemma_absent_concat(group, seq!['.'], ';');
    lemma_absent_concat(group, seq!['.'], ':');
    lemma_absent_concat(group + seq!['.'], parts.name, ';');
    lemma_absent_concat(group + seq!['.'], parts.name, ':');
    assert forall|i: int| 0 <= i < grouped.len() implies is_simple(#[trigger] grouped[i]) by {
        if i > 0 {
            assert(grouped[i] == write_param(parts.params[i - 1]));
            lemma_param_reads_back(parts.params[i - 1]);
        }
    }
    let head = spec_join(grouped, seq![';']);
    assert(head + seq![':'] + parts.value =~= line) by {
        if pieces.len() >= 2 {
            lemma_join_front(pieces, seq![';']);
            lemma_join_front(grouped, seq![';']);
            assert(grouped.skip(1) =~= pieces.skip(1));
        } else {
            assert(grouped.len() == 1);
        }
    }
    lemma_join_lacks(grouped, ';', ':');
    lemma_split_first(head, ':', parts.value);
    lemma_split_join(grouped, ';');
    lemma_split_first(group, '.', parts.name);
    assert(grouped.skip(1) =~= pieces.skip(1));
    assert(split_params(pieces.skip(1)) =~= parts.params) by {
        assert forall|i: int| 0 <= i < parts.params.len() implies #[trigger] split_params(
            pieces.skip(1),
        )[i] == parts.params[i] by {
            assert(pieces.skip(1)[i] == write_param(parts.params[i]));
            lemma_param_reads_back(parts.params[i]);
        }
    }
    assert(spec_split_line(line) == Some(parts));
}

proof fn lemma_lines_concat(a: Seq<char>, y: Seq<char>)
    ensures
        spec_lines(a + seq!['\n'] + y) == spec_lines(a + seq!['\n']) + spec_lines(y),
{
    let pa = spec_split(a, '\n');
    let py = spec_split(y, '\n');
    let none = Seq::<char>::empty();
    lemma_split_concat(a, '\n', y);
    lemma_split_concat(a, '\n', none);
    assert(a + seq!['\n'] + none =~= a + seq!['\n']);
    assert(!none.contains('\n'));
    lemma_split_first(none, '\n', none);
    assert((pa + py).drop_last() =~= pa + py.drop_last());
    assert((pa + seq![none]).drop_last() =~= pa);
    let strip = |p: Seq<char>| without_cr(p);
    assert((pa + py.drop_last()).map_values(strip) =~= pa.map_values(strip)
        + py.drop_last().map_values(strip));
    assert(spec_lines(a + seq!['\n'] + y) =~= spec_lines(a + seq!['\n']) + spec_lines(y));
}

proof fn lemma_line_ended(l: Seq<char>)
    requires
        !l.contains('\n'),
        l.len() > 0 ==> l.last() != '\r',
    ensures
        spec_lines(l + seq!['\n']) == seq![l],
        spec_trim_cr(l) == l,
{
    let none = Seq::<char>::empty();
    assert(!none.contains('\n'));
    lemma_split_first(l, '\n', none);
    lemma_split_first(none, '\n', none);
    assert(l + seq!['\n'] + none =~= l + seq!['\n']);
    let pieces = spec_split(l + seq!['\n'], '\n');
    assert(pieces =~= seq![l, none]);
    assert(pieces.drop_last() =~= seq![l]);
    assert(spec_lines(l + seq!['\n']) =~= seq![l]);
}

proof fn lemma_unfold_ended(a: Seq<char>)
    requires
        a.len() > 0,
        a.last() == '\n',
    ensures
        spec_unfold(a).len() > 0,
        spec_unfold(a).last() == '\n',
{
    let head = a.drop_last();
    let lf = seq!['\n'];
    law_unfold_plain(lf);
    if head.len() > 0 && head.last() == '\r' {
        let before = head.drop_last();
        let crlf = seq!['\r', '\n'];
        lemma_crlf();
        assert(a =~= before + crlf);
        law_unfold_concat(before, crlf);
    } else {
        assert(a =~= head + lf);
        law_unfold_concat(head, lf);
    }
}

proof fn lemma_crlf()
    ensures
        spec_unfold(seq!['\r', '\n']) == seq!['\n'],
{
    reveal_strlit("\r\n");
    reveal_strlit("\n");
    let crlf = seq!['\r', '\n'];
    let none = Seq::<char>::empty();
    assert(crlf.take(2) =~= "\r\n"@);
    assert(crlf.skip(2) =~= none);
    assert(spec_replace(none, "\r\n"@, "\n"@) == none);
    assert("\n"@ + none =~= seq!['\n']);
    assert(spec_replace(crlf, "\r\n"@, "\n"@) == seq!['\n']);
    law_unfold_plain(seq!['\n']);
    assert(spec_replace(seq!['\n'], "\r\n"@, "\n"@) == seq!['\n']);
}

/// Reading goes on from line to line: what a list of lines does and then
/// another is what the two do together.
pub proof fn law_scan_concat(state: ScanModel, first: Seq<Seq<char>>, second: Seq<Seq<char>>)
    ensures
        scan_lines(state, first + second) == scan_lines(scan_lines(state, first), second),
    decreases second.len(),
{
    let all = first + second;
    if second.len() == 0 {
        assert(all =~= first);
    } else {
        assert(all.drop_last() =~= first + second.drop_last());
        law_scan_concat(state, first, second.drop_last());
    }
}

/// Finished cards stay as they are, and have no influence on what is read
/// after them.
pub proof fn law_scan_keeps_cards(state: ScanModel, lines: Seq<Seq<char>>)
    ensures
        ({
            let alone = scan_lines(ScanModel { cards: Seq::empty(), ..state }, lines);
            scan_lines(state, lines) == (ScanModel {
                cards: state.cards + alone.cards,
                current: alone.current,
            })
        }),
    decreases lines.len(),
{
    let empty = ScanModel { cards: Seq::empty(), ..state };
    if lines.len() == 0 {
        assert(state.cards + Seq::<Seq<PropertyModel>>::empty() =~= state.cards);
    } else {
        law_scan_keeps_cards(state, lines.drop_last());
        let alone = scan_lines(empty, lines.drop_last());
        match alone.current {
            Some(props) => {
                assert((state.cards + alone.cards).push(props) =~= state.cards + alone.cards.push(
                    props,
                ));
            },
            None => {},
        }
    }
}

/// Lines outside a card are ignored.
pub proof fn law_outside_ignored(state: ScanModel, lines: Seq<Seq<char>>)
    requires
        state.current is None,
        forall|i: int| 0 <= i < lines.len() ==> !is_begin(#[trigger] lines[i]),
    ensures
        scan_lines(state, lines) == state,
    decreases lines.len(),
{
    if lines.len() > 0 {
        let init = lines.drop_last();
        assert forall|i: int| 0 <= i < init.len() implies !is_begin(#[trigger] init[i]) by {
            assert(init[i] == lines[i]);
        }
        law_outside_ignored(state, init);
        assert(!is_begin(lines[lines.len() - 1]));
    }
}

/// The properties of a list of lines; lines that hold none are left out.
pub open spec fn properties(lines: Seq<Seq<char>>) -> Seq<PropertyModel>
    decreases lines.len(),
{
    if lines.len() == 0 {
        Seq::empty()
    } else {
        match spec_parse_line(spec_trim_cr(lines.last())) {
            Some(p) => properties(lines.drop_last()).push(p),
            None => properties(lines.drop_last()),
        }
    }
}

/// Whether a line neither opens nor closes a card.
pub open spec fn is_inner(line: Seq<char>) -> bool {
    !is_begin(line) && !is_end(line)
}

proof fn lemma_scan_inner(state: ScanModel, lines: Seq<Seq<char>>)
    requires
        state.current == Some(Seq::<PropertyModel>::empty()),
        forall|i: int| 0 <= i < lines.len() ==> is_inner(#[trigger] lines[i]),
    ensures
        scan_lines(state, lines) == (ScanModel {
            cards: state.cards,
            current: Some(properties(lines)),
        }),
    decreases lines.len(),
{
    if lines.len() > 0 {
        let init = lines.drop_last();
        assert forall|i: int| 0 <= i < init.len() implies is_inner(#[trigger] init[i]) by {
            assert(init[i] == lines[i]);
        }
        lemma_scan_inner(state, init);
        assert(is_inner(lines[lines.len() - 1]));
    }
}

/// What stands between a line that opens a card and the line that closes it
/// becomes one card, whatever stood before.
pub proof fn law_framed_card(
    state: ScanModel,
    begin: Seq<char>,
    body: Seq<Seq<char>>,
    end: Seq<char>,
)
    requires
        is_begin(begin),
        is_end(end),
        !is_begin(end),
        forall|i: int| 0 <= i < body.len() ==> is_inner(#[trigger] body[i]),
    ensures
        scan_lines(state, seq![begin] + body + seq![end]) == (ScanModel {
            cards: state.cards.push(properties(body)),
            current: None,
        }),
{
    let opened = ScanModel { current: Some(Seq::empty()), ..state };
    assert(seq![begin].drop_last() =~= Seq::<Seq<char>>::empty());
    assert(scan_lines(state, seq![begin].drop_last()) == state);
    assert(scan_lines(state, seq![begin]) == opened);
    law_scan_concat(state, seq![begin], body);
    lemma_scan_inner(opened, body);
    law_scan_concat(state, seq![begin] + body, seq![end]);
    assert(seq![end].drop_last() =~= Seq::<Seq<char>>::empty());
    let filled = scan_lines(state, seq![begin] + body);
    assert(scan_lines(filled, seq![end]) == scan_line(scan_lines(filled, seq![end].drop_last()), end));
}

/// Texts that end at the end of a line, with no card left open, are read one
/// after the other.
pub proof fn law_texts_concat(a: Seq<char>, b: Seq<char>)
    requires
        a.len() > 0 ==> a.last() == '\n',
        b.len() > 0 ==> !is_fold_space(b[0]),
        spec_scan(a).current is None,
    ensures
        spec_parse_vcards(a + b) == spec_parse_vcards(a) + spec_parse_vcards(b),
        spec_scan(a + b).current == spec_scan(b).current,
{
    if a.len() == 0 {
        law_empty_text();
        assert(a =~= Seq::<char>::empty());
        assert(a + b =~= b);
        assert(Seq::<Seq<PropertyModel>>::empty() + spec_parse_vcards(b) =~= spec_parse_vcards(b));
    } else {
        law_unfold_concat(a, b);
        lemma_unfold_ended(a);
        let ua = spec_unfold(a);
        let head = ua.drop_last();
        assert(ua =~= head + seq!['\n']);
        lemma_lines_concat(head, spec_unfold(b));
        law_scan_concat(scan_start(), spec_lines(ua), spec_lines(spec_unfold(b)));
        law_scan_keeps_cards(spec_scan(a), spec_lines(spec_unfold(b)));
    }
}

/// An empty text holds no cards.
pub proof fn law_empty_text()
    ensures
        spec_scan(Seq::empty()) == scan_start(),
        spec_parse_vcards(Seq::empty()) == Seq::<Seq<PropertyModel>>::empty(),
{
    let none = Seq::<char>::empty();
    law_unfold_plain(none);
    assert(!none.contains('\n'));
    lemma_split_first(none, '\n', none);
    assert(spec_split(none, '\n') =~= seq![none]);
    assert(spec_lines(none) =~= Seq::<Seq<char>>::empty());
}

/// Whether a text can stand on a line of a file: it has no line feed in it,
/// does not end in a carriage return, and does not look like the continuation
/// of another line.
pub open spec fn is_one_line(line: Seq<char>) -> bool {
    &&& !line.contains('\n')
    &&& line.len() > 0 ==> line.last() != '\r' && !is_fold_space(line[0])
}

/// The two ways to end a line.
pub open spec fn is_ending(ending: Seq<char>) -> bool {
    ending == seq!['\n'] || ending == seq!['\r', '\n']
}

/// Lines read back as they were written, with either ending.
pub proof fn law_lines_read_back(lines: Seq<Seq<char>>, ending: Seq<char>)
    requires
        is_ending(ending),
        forall|i: int| 0 <= i < lines.len() ==> is_one_line(#[trigger] lines[i]),
    ensures
        spec_lines(spec_unfold(spec_write_lines(lines, ending))) == lines,
    decreases lines.len(),
{
    if lines.len() == 0 {
        law_empty_text();
        let none = Seq::<char>::empty();
        law_unfold_plain(none);
        assert(!none.contains('\n'));
        lemma_split_first(none, '\n', none);
        assert(spec_split(none, '\n') =~= seq![none]);
        assert(spec_lines(none) =~= lines);
    } else {
        let l = lines[0];
        let more = lines.skip(1);
        let rest = spec_write_lines(more, ending);
        assert forall|i: int| 0 <= i < more.len() implies is_one_line(#[trigger] more[i]) by {
            assert(more[i] == lines[i + 1]);
        }
        law_lines_read_back(more, ending);
        if more.len() > 0 {
            assert(is_one_line(more[0]));
            if more[0].len() > 0 {
                assert(rest[0] == more[0][0]);
            } else {
                assert(rest[0] == ending[0]);
            }
        }
        let ended = l + ending;
        law_unfold_concat(ended, rest);
        assert forall|i: int, j: int|
            #![trigger l[i], l[j]]
            0 <= i && j == i + 1 && j < l.len() implies !(l[i] == '\r' && l[j] == '\n') && !(l[i]
            == '\n' && is_fold_space(l[j])) by {
            assert(l.contains(l[i]));
        }
        law_unfold_plain(l);
        law_unfold_plain(seq!['\n']);
        lemma_crlf();
        law_unfold_concat(l, ending);
        assert(spec_unfold(ended) == l + seq!['\n']);
        lemma_lines_concat(l, spec_unfold(rest));
        lemma_line_ended(l);
        assert(lines =~= seq![l] + more);
    }
}

/// The lines of a card with the given lines inside it.
pub open spec fn card_lines(body: Seq<Seq<char>>) -> Seq<Seq<char>> {
    seq!["BEGIN:VCARD"@] + body + seq!["END:VCARD"@]
}

proof fn lemma_frame_lines()
    ensures
        is_begin("BEGIN:VCARD"@),
        is_end("END:VCARD"@),
        !is_begin("END:VCARD"@),
        is_one_line("BEGIN:VCARD"@),
        is_one_line("END:VCARD"@),
{
    reveal_strlit("BEGIN:VCARD");
    reveal_strlit("END:VCARD");
    let b = "BEGIN:VCARD"@;
    let e = "END:VCARD"@;
    assert(b.last() == 'D' && e.last() == 'D');
    let lower = |c: char| crate::outside::ascii_lower(c);
    assert(e.map_values(lower).len() != b.map_values(lower).len());
}

/// A file with one card reads back as that card.
pub proof fn law_card_reads_back(body: Seq<Seq<char>>, ending: Seq<char>)
    requires
        is_ending(ending),
        forall|i: int| 0 <= i < body.len() ==> is_one_line(#[trigger] body[i]) && is_inner(body[i]),
    ensures
        spec_scan(spec_write_lines(card_lines(body), ending)) == (ScanModel {
            cards: seq![properties(body)],
            current: None,
        }),
{
    let all = card_lines(body);
    lemma_frame_lines();
    assert forall|i: int| 0 <= i < all.len() implies is_one_line(#[trigger] all[i]) by {
        if 0 < i < all.len() - 1 {
            assert(all[i] == body[i - 1]);
        }
    }
    law_lines_read_back(all, ending);
    law_framed_card(scan_start(), "BEGIN:VCARD"@, body, "END:VCARD"@);
    assert(Seq::<Seq<PropertyModel>>::empty().push(properties(body)) =~= seq![properties(body)]);
}

/// The lines that are written for a list of line parts.
pub open spec fn body_lines(parts: Seq<LineModel>) -> Seq<Seq<char>> {
    parts.map_values(|p: LineModel| write_line(p))
}

/// The properties that a list of line parts stands for.
pub open spec fn canonical_all(parts: Seq<LineModel>) -> Seq<PropertyModel> {
    parts.map_values(|p: LineModel| canonical(p))
}

/// A file with one card, written property by property, reads back as those
/// properties, with names and keys in upper case, and no card is left open.
pub proof fn law_properties_read_back(parts: Seq<LineModel>, ending: Seq<char>)
    requires
        is_ending(ending),
        forall|i: int|
            0 <= i < parts.len() ==> is_writable(#[trigger] parts[i]) && is_one_line(
                write_line(parts[i]),
            ) && is_inner(write_line(parts[i])),
    ensures
        spec_parse_vcards(spec_write_lines(card_lines(body_lines(parts)), ending)) == seq![
            canonical_all(parts),
        ],
        spec_scan(spec_write_lines(card_lines(body_lines(parts)), ending)).current is None,
{
    let body = body_lines(parts);
    assert forall|i: int| 0 <= i < body.len() implies is_one_line(#[trigger] body[i]) && is_inner(
        body[i],
    ) by {
        assert(body[i] == write_line(parts[i]));
    }
    law_card_reads_back(body, ending);
    lemma_properties(parts);
}

proof fn lemma_properties(parts: Seq<LineModel>)
    requires
        forall|i: int|
            0 <= i < parts.len() ==> is_writable(#[trigger] parts[i]) && is_one_line(
                write_line(parts[i]),
            ),
    ensures
        properties(body_lines(parts)) == canonical_all(parts),
    decreases parts.len(),
{
    if parts.len() == 0 {
        assert(canonical_all(parts) =~= Seq::<PropertyModel>::empty());
    } else {
        let init = parts.drop_last();
        let last = parts.last();
        assert forall|i: int| 0 <= i < init.len() implies is_writable(#[trigger] init[i])
            && is_one_line(write_line(init[i])) by {
            assert(init[i] == parts[i]);
        }
        lemma_properties(init);
        assert(body_lines(parts).drop_last() =~= body_lines(init));
        assert(is_writable(parts[parts.len() - 1]));
        lemma_line_ended(write_line(last));
        law_line_reads_back(last);
        assert(canonical_all(parts) =~= canonical_all(init).push(canonical(last)));
    }
}

/// A file with a card for each list of line parts.
pub open spec fn write_cards(cards: Seq<Seq<LineModel>>, ending: Seq<char>) -> Seq<char>
    decreases cards.len(),
{
    if cards.len() == 0 {
        Seq::empty()
    } else {
        spec_write_lines(card_lines(body_lines(cards[0])), ending) + write_cards(cards.skip(1), ending)
    }
}

proof fn lemma_written_ends(lines: Seq<Seq<char>>, ending: Seq<char>)
    requires
        is_ending(ending),
        lines.len() > 0,
    ensures
        spec_write_lines(lines, ending).len() > 0,
        spec_write_lines(lines, ending).last() == '\n',
        lines[0].len() > 0 ==> spec_write_lines(lines, ending)[0] == lines[0][0],
    decreases lines.len(),
{
    if lines.len() > 1 {
        lemma_written_ends(lines.skip(1), ending);
    } else {
        assert(spec_write_lines(lines.skip(1), ending) =~= Seq::<char>::empty());
    }
}

/// A file with any number of cards reads back as those cards, in their order.
pub proof fn law_cards_read_back(cards: Seq<Seq<LineModel>>, ending: Seq<char>)
    requires
        is_ending(ending),
        forall|c: int, i: int|
            0 <= c < cards.len() && 0 <= i < cards[c].len() ==> is_writable(
                #[trigger] cards[c][i],
            ) && is_one_line(write_line(cards[c][i])) && is_inner(write_line(cards[c][i])),
    ensures
        spec_parse_vcards(write_cards(cards, ending)) == cards.map_values(
            |c: Seq<LineModel>| canonical_all(c),
        ),
        spec_scan(write_cards(cards, ending)).current is None,
    decreases cards.len(),
{
    let all = cards.map_values(|c: Seq<LineModel>| canonical_all(c));
    if cards.len() == 0 {
        law_empty_text();
        assert(all =~= Seq::<Seq<PropertyModel>>::empty());
    } else {
        let rest = cards.skip(1);
        let first = spec_write_lines(card_lines(body_lines(cards[0])), ending);
        let more = write_cards(rest, ending);
        assert forall|c: int, i: int|
            0 <= c < rest.len() && 0 <= i < rest[c].len() implies is_writable(
            #[trigger] rest[c][i],
        ) && is_one_line(write_line(rest[c][i])) && is_inner(write_line(rest[c][i])) by {
            assert(rest[c][i] == cards[c + 1][i]);
        }
        law_cards_read_back(rest, ending);
        assert forall|i: int| 0 <= i < cards[0].len() implies is_writable(
            #[trigger] cards[0][i],
        ) && is_one_line(write_line(cards[0][i])) && is_inner(write_line(cards[0][i])) by {
        }
        law_properties_read_back(cards[0], ending);
        lemma_written_ends(card_lines(body_lines(cards[0])), ending);
        reveal_strlit("BEGIN:VCARD");
        if rest.len() > 0 {
            lemma_written_ends(card_lines(body_lines(rest[0])), ending);
        }
        law_texts_concat(first, more);
        assert(all =~= seq![canonical_all(cards[0])] + rest.map_values(
            |c: Seq<LineModel>| canonical_all(c),
        ));
    }
}

/// A fold makes no difference to the cards of a text. It may stand anywhere
/// but in or behind a line break, with either ending and a space or a tab.
pub proof fn law_folds_ignored(a: Seq<char>, ending: Seq<char>, space: char, b: Seq<char>)
    requires
        is_ending(ending),
        is_fold_space(space),
        a.len() > 0 ==> a.last() != '\r',
        !(a.len() > 0 && a.last() == '\n' && b.len() > 0 && is_fold_space(b[0])),
    ensures
        spec_parse_vcards(a + ending.push(space) + b) == spec_parse_vcards(a + b),
{
    law_unfold_concat(a, b);
    law_crlf_fold_removed(a, space, b);
    law_lf_fold_removed(a, space, b);
    assert(seq!['\n'].push(space) =~= seq!['\n', space]);
    assert(seq!['\r', '\n'].push(space) =~= seq!['\r', '\n', space]);
}

} // verus!
