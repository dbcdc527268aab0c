//! Laws of the lines of a card, told by their text and their styles.

use crate::card::PropertyModel;
use crate::laws::layout::plain_text;
use crate::laws::views::law_view_parts;
use crate::show::{
    card_title, line_of, row_head, spec_card_view, spec_row, title_line, RULE_WIDTH,
};
use crate::style::{spec_concat, LineLayout, SpanModel, Style};
use crate::text::{
    spec_decimal, spec_lines, spec_lower, spec_pad_left, spec_pad_right, spec_repeat,
};
use vstd::prelude::*;

verus! {

proof fn lemma_spans_text(line: LineLayout)
    requires
        1 <= line.spans.len() <= 4,
        forall|i: int| 0 <= i < line.spans.len() ==> (#[trigger] line.spans[i]).width == 0,
    ensures
        line.spans.len() == 1 ==> plain_text(line) == line.spans[0].text,
        line.spans.len() == 2 ==> plain_text(line) == line.spans[0].text + line.spans[1].text,
        line.spans.len() == 3 ==> plain_text(line) == line.spans[0].text + line.spans[1].text
            + line.spans[2].text,
        line.spans.len() == 4 ==> plain_text(line) == line.spans[0].text + line.spans[1].text
            + line.spans[2].text + line.spans[3].text,
{
    reveal_with_fuel(spec_concat, 5);
    let shown = line.spans.map_values(|s: SpanModel| spec_pad_right(s.text, s.width));
    assert forall|i: int| 0 <= i < shown.len() implies #[trigger] shown[i]
        == line.spans[i].text by {
        assert(line.spans[i].width == 0);
    }
    let none = Seq::<char>::empty();
    assert(none + shown[0] =~= shown[0]);
    assert(plain_text(line) == spec_concat(shown));
}

/// A row has a line for each line of the value. The first holds the label on
/// the right of a column of fourteen, the first line of the value, and behind
/// it in brackets the hint in lower case, if there is one. Any further line of
/// the value stands below the first.
pub proof fn law_row_text(label: Seq<char>, value: Seq<char>, hint: Option<Seq<char>>)
    ensures
        ({
            let row = spec_row(label, value, hint);
            let lines = spec_lines(value);
            &&& row.len() == lines.len()
            &&& row.len() > 0 ==> plain_text(row[0]) == "  "@ + spec_pad_left(label, 14) + ("  "@
                + lines[0]) + (match hint {
                Some(h) => "  ["@ + spec_lower(h) + "]"@,
                None => Seq::empty(),
            })
            &&& forall|i: int|
                0 < i < row.len() ==> plain_text(#[trigger] row[i]) == spec_repeat(' ', 18)
                    + lines[i]
        }),
{
    let row = spec_row(label, value, hint);
    let lines = spec_lines(value);
    if lines.len() > 0 {
        let head = row_head(label, lines[0], hint);
        assert(row[0] == head);
        assert forall|i: int| 0 <= i < head.spans.len() implies (#[trigger] head.spans[i]).width
            == 0 by {}
        lemma_spans_text(head);
        match hint {
            Some(h) => {},
            None => {
                let t = plain_text(head);
                assert(t + Seq::<char>::empty() =~= t);
            },
        }
        assert forall|i: int| 0 < i < row.len() implies plain_text(#[trigger] row[i])
            == spec_repeat(' ', 18) + lines[i] by {
            assert(row[i] == crate::show::row_more(lines.skip(1)[i - 1]));
            lemma_spans_text(row[i]);
        }
    }
}

/// In a row the label is bold and blue and the hint dimmed. All else is plain.
pub proof fn law_row_styles(label: Seq<char>, value: Seq<char>, hint: Option<Seq<char>>)
    requires
        spec_lines(value).len() > 0,
    ensures
        ({
            let row = spec_row(label, value, hint);
            let head = row[0];
            &&& head.spans.len() == (if hint is Some {
                4int
            } else {
                3
            })
            &&& head.spans[0].style == Style::Plain
            &&& head.spans[1].text == spec_pad_left(label, 14)
            &&& head.spans[1].style == Style::BoldBlue
            &&& head.spans[2].style == Style::Plain
            &&& hint is Some ==> head.spans[3].style == Style::Dimmed
            &&& head.style == Style::Plain
            &&& forall|i: int|
                0 < i < row.len() ==> (#[trigger] row[i]).style == Style::Plain
                    && row[i].spans.len() == 1 && row[i].spans[0].style == Style::Plain
        }),
{
    let row = spec_row(label, value, hint);
    assert forall|i: int| 0 < i < row.len() implies (#[trigger] row[i]).style == Style::Plain
        && row[i].spans.len() == 1 && row[i].spans[0].style == Style::Plain by {
        assert(row[i] == crate::show::row_more(spec_lines(value).skip(1)[i - 1]));
    }
}

/// The view of a card begins with a rule with the title in it: its number and
/// how many there are, where there are several. The title is bold, the rule is
/// cyan, and it is 52 places long unless the title leaves no room.
pub proof fn law_view_title(card: Seq<PropertyModel>, index: nat, total: nat)
    ensures
        ({
            let line = spec_card_view(card, index, total)[0];
            let title = if total > 1 {
                " Contact "@ + spec_decimal(index + 1) + "/"@ + spec_decimal(total) + "  "@
            } else {
                " Contact "@
            };
            &&& line.style == Style::Cyan
            &&& line.spans.len() == 3
            &&& line.spans[0].style == Style::Plain
            &&& line.spans[1].text == title && line.spans[1].style == Style::Bold
            &&& line.spans[2].style == Style::Plain
            &&& exists|fill: nat|
                plain_text(line) == "── "@ + title + (" "@ + #[trigger] spec_repeat('─', fill)) && (
                if title.len() <= 48 {
                    plain_text(line).len() == 52
                } else {
                    fill == 0
                })
        }),
{
    reveal(spec_card_view);
    reveal_strlit("── ");
    reveal_strlit(" ");
    let view = spec_card_view(card, index, total);
    let title = card_title(index, total);
    let line = title_line(title);
    assert(view[0] == line);
    lemma_spans_text(line);
    let fill: nat = if title.len() + 4 < RULE_WIDTH {
        (RULE_WIDTH - (title.len() + 4)) as nat
    } else {
        0
    };
    assert(plain_text(line) == "── "@ + title + (" "@ + spec_repeat('─', fill)));
}

/// The view of a card ends with a cyan rule of 52 places.
pub proof fn law_view_rule(card: Seq<PropertyModel>, index: nat, total: nat)
    ensures
        ({
            let view = spec_card_view(card, index, total);
            let line = view[view.len() - 1];
            plain_text(line) == spec_repeat('─', 52) && line.style == Style::Cyan
        }),
{
    law_view_parts(card, index, total);
    reveal(spec_card_view);
    let view = spec_card_view(card, index, total);
    let line = line_of(spec_repeat('─', RULE_WIDTH as nat), Style::Cyan);
    assert(view.last() == line);
    lemma_spans_text(line);
}

} // verus!
