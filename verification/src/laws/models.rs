//! Laws of what the models of the types hold: every text, in its place.

use crate::card::{borrowed_models, Property, PropertyModel, VCard};
use crate::cli::{source_texts, Command, CommandModel};
use crate::csv::labelled_models;
use crate::decode::{latin1_bytes, spec_fix_mojibake};
use crate::laws::values::mojibake;
use crate::parse::{card_models, is_fold_space, LineParts};
use crate::style::{
    layouts, line_painted, lines_painted, span_painted, Line, LineLayout, SpanModel, Style,
};
use crate::table::{card_rows, row_models, spec_from_card, TableRow};
use crate::text::{spec_pad_right, spec_replace, texts};
use vstd::prelude::*;
use vstd::utf8::decode_utf8_encode_utf8;

verus! {

/// The model of a property has its name, its value, and all its parameters in
/// their order.
pub proof fn law_property_model(p: Property)
    ensures
        p@.name == p.name@,
        p@.value == p.value@,
        p@.params.len() == p.params@.len(),
        forall|i: int|
            0 <= i < p.params@.len() ==> #[trigger] p@.params[i] == (p.params@[i].0@, p.params@[i].1@),
{
}

/// The model of a card has all its properties in their order.
pub proof fn law_card_model(card: VCard)
    ensures
        card@.len() == card.properties@.len(),
        forall|i: int| 0 <= i < card@.len() ==> #[trigger] card@[i] == card.properties@[i]@,
{
}

/// The models of lists have an element for each, in its place.
pub proof fn law_list_models(
    cards: Seq<VCard>,
    labelled: Seq<(String, VCard)>,
    borrowed: Seq<&Property>,
    sources: Seq<(String, String)>,
    strings: Seq<String>,
    rows: Seq<TableRow>,
    lines: Seq<Line>,
)
    ensures
        card_models(cards).len() == cards.len(),
        forall|i: int| 0 <= i < cards.len() ==> #[trigger] card_models(cards)[i] == cards[i]@,
        labelled_models(labelled).len() == labelled.len(),
        forall|i: int|
            0 <= i < labelled.len() ==> #[trigger] labelled_models(labelled)[i] == (
                labelled[i].0@,
                labelled[i].1@,
            ),
        borrowed_models(borrowed).len() == borrowed.len(),
        forall|i: int| 0 <= i < borrowed.len() ==> #[trigger] borrowed_models(borrowed)[i] == borrowed[i]@,
        source_texts(sources).len() == sources.len(),
        forall|i: int|
            0 <= i < sources.len() ==> #[trigger] source_texts(sources)[i] == (
                sources[i].0@,
                sources[i].1@,
            ),
        texts(strings).len() == strings.len(),
        forall|i: int| 0 <= i < strings.len() ==> #[trigger] texts(strings)[i] == strings[i]@,
        row_models(rows).len() == rows.len(),
        forall|i: int| 0 <= i < rows.len() ==> #[trigger] row_models(rows)[i] == rows[i]@,
        layouts(lines).len() == lines.len(),
        forall|i: int| 0 <= i < lines.len() ==> #[trigger] layouts(lines)[i] == lines[i]@,
{
}

/// The model of a row of the table has the text of each of its fields.
pub proof fn law_row_model(row: TableRow)
    ensures
        row@.name == row.name@,
        row@.org == row.org@,
        row@.title == row.title@,
        row@.email == row.email@,
        row@.phone == row.phone@,
{
}

/// A table has a row for each card, in its place.
pub proof fn law_card_rows(cards: Seq<Seq<PropertyModel>>)
    ensures
        card_rows(cards).len() == cards.len(),
        forall|i: int| 0 <= i < cards.len() ==> #[trigger] card_rows(cards)[i] == spec_from_card(cards[i]),
{
}

/// The model of a line of styled text has all its spans, with their text, style
/// and width, and the style of the line.
pub proof fn law_line_model(line: Line)
    ensures
        line@.style == line.style,
        line@.spans.len() == line.spans@.len(),
        forall|i: int|
            0 <= i < line.spans@.len() ==> (#[trigger] line@.spans[i]) == (SpanModel {
                text: line.spans@[i].text@,
                style: line.spans@[i].style,
                width: line.spans@[i].width as nat,
            }),
{
}

/// The model of a line as it was written has its name, its value, and all its
/// parameters in their order, each with its key if it has one.
pub proof fn law_parts_model(parts: LineParts)
    ensures
        parts@.name == parts.name@,
        parts@.value == parts.value@,
        parts@.params.len() == parts.params@.len(),
        forall|i: int|
            0 <= i < parts.params@.len() ==> {
                &&& (#[trigger] parts@.params[i]).1 == parts.params@[i].1@
                &&& parts.params@[i].0 is None <==> parts@.params[i].0 is None
                &&& parts.params@[i].0 matches Some(k) ==> parts@.params[i].0 == Some(k@)
            },
{
}

/// The model of a command is the command with the text of its path.
pub proof fn law_command_model(command: Command)
    ensures
        command is Usage ==> command@ == CommandModel::Usage,
        command is MissingPath ==> command@ == CommandModel::MissingPath,
        command matches Command::View { csv, path } ==> command@ == (CommandModel::View {
            csv,
            path: path@,
        }),
{
}

/// A line is folded by a space or a tab, and by nothing else.
pub proof fn law_fold_space(c: char)
    ensures
        is_fold_space(c) <==> c == ' ' || c == '\t',
{
}

proof fn lemma_latin1_char(c: char)
    requires
        c as u32 <= 0xFF,
    ensures
        (c as u8) as char == c,
{
}

/// Nothing but Mojibake is ever repaired: a text that is changed is the
/// Mojibake of what it is changed into.
pub proof fn law_only_mojibake_repaired(s: Seq<char>)
    ensures
        spec_fix_mojibake(s) == s || mojibake(spec_fix_mojibake(s)) == s,
{
    let bytes = latin1_bytes(s);
    if spec_fix_mojibake(s) != s {
        decode_utf8_encode_utf8(bytes);
        assert forall|i: int| 0 <= i < s.len() implies bytes[i] as char == s[i] by {
            assert(s[i] as u32 <= 0xFF);
            lemma_latin1_char(s[i]);
        }
        assert(mojibake(spec_fix_mojibake(s)) =~= s);
    }
}

/// A span comes out as its text, filled up to its width; or, unless it is
/// plain, with the escape sequence of its style before it and the reset behind
/// it, and the style taken up again after each reset in the text.
pub proof fn law_span_outcomes(text: Seq<char>, style: Style, width: nat, out: Seq<char>)
    requires
        span_painted(SpanModel { text, style, width }, out),
    ensures
        ({
            let open = match style {
                Style::Plain => Seq::empty(),
                Style::Bold => "\u{1b}["@ + "1"@ + "m"@,
                Style::Dimmed => "\u{1b}["@ + "2"@ + "m"@,
                Style::Cyan => "\u{1b}["@ + "36"@ + "m"@,
                Style::BoldBlue => "\u{1b}["@ + "1;34"@ + "m"@,
                Style::BoldWhite => "\u{1b}["@ + "1;37"@ + "m"@,
                Style::BoldCyan => "\u{1b}["@ + "1;36"@ + "m"@,
            };
            let reset = "\u{1b}[0m"@;
            ||| out == spec_pad_right(text, width)
            ||| style != Style::Plain && out == open + spec_pad_right(
                spec_replace(text, reset, reset + open),
                width,
            ) + reset
        }),
{
}

/// A line of one plain text comes out as that text in the style of the line.
pub proof fn law_one_span_line(span: SpanModel, style: Style, out: Seq<char>)
    requires
        span.style == Style::Plain,
        span.width == 0,
        line_painted(LineLayout { spans: seq![span], style }, out),
    ensures
        span_painted(SpanModel { text: span.text, style, width: 0 }, out),
{
    let spans = seq![span];
    let parts = choose|parts: Seq<Seq<char>>|
        #![trigger crate::style::spans_painted(spans, parts)]
        crate::style::spans_painted(spans, parts) && span_painted(
            SpanModel { text: crate::style::spec_concat(parts), style, width: 0 },
            out,
        );
    assert(span_painted(spans[0], parts[0]));
    assert(parts =~= seq![span.text]);
    assert(crate::style::spec_concat(parts.drop_last()) =~= Seq::<char>::empty());
    assert(crate::style::spec_concat(parts) =~= span.text);
}

/// A view comes out line by line.
pub proof fn law_lines_come_out(view: Seq<LineLayout>, out: Seq<Seq<char>>)
    requires
        lines_painted(view, out),
    ensures
        out.len() == view.len(),
        forall|i: int| 0 <= i < view.len() ==> line_painted(#[trigger] view[i], out[i]),
{
}

} // verus!
