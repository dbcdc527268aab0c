//! The view of many cards, as a table.

use crate::card::{spec_get, spec_get_all, PropertyModel, VCard};
use crate::decode::{components, spec_components};
use crate::fields::{
    card_field, card_name, card_texts, property_texts, spec_card_field, spec_card_name,
};
use crate::parse::card_models;
use crate::show::{line, line_of, span, span_of};
use crate::style::{layouts, lines_painted, render_all, span_models, Line, LineLayout, Span};
use crate::style::{SpanModel, Style};
use crate::text::{
    chars_of, count, decimal, join, pad_right, repeat, spec_decimal, spec_join, spec_pad_right,
    spec_repeat, spec_trim, string_between, texts, trim,
};
use vstd::prelude::*;

verus! {

/// Row data for one card in the table view.
#[derive(Debug, Clone)]
pub struct TableRow {
    pub name: String,
    pub org: String,
    pub title: String,
    pub email: String,
    pub phone: String,
}

/// The text of a [`TableRow`].
pub struct RowModel {
    pub name: Seq<char>,
    pub org: Seq<char>,
    pub title: Seq<char>,
    pub email: Seq<char>,
    pub phone: Seq<char>,
}

impl View for TableRow {
    type V = RowModel;

    open spec fn view(&self) -> RowModel {
        RowModel {
            name: self.name@,
            org: self.org@,
            title: self.title@,
            email: self.email@,
            phone: self.phone@,
        }
    }
}

/// The first text of a list that is not empty; empty if there is none.
pub open spec fn first_nonempty(parts: Seq<Seq<char>>) -> Seq<char>
    decreases parts.len(),
{
    if parts.len() == 0 {
        Seq::empty()
    } else if parts[0].len() > 0 {
        parts[0]
    } else {
        first_nonempty(parts.skip(1))
    }
}

fn pick_nonempty(parts: &Vec<String>) -> (out: String)
    ensures
        out@ == first_nonempty(texts(parts@)),
{
    let ghost model = texts(parts@);
    let mut i: usize = 0;
    assert(model.skip(0) =~= model);
    while i < parts.len()
        invariant
            model == texts(parts@),
            i <= parts.len(),
            first_nonempty(model) == first_nonempty(model.skip(i as int)),
        decreases parts.len() - i,
    {
        assert(model.skip(i as int)[0] == parts@[i as int]@);
        if !parts[i].as_str().is_empty() {
            return parts[i].clone();
        }
        assert(model.skip(i as int).skip(1) =~= model.skip(i + 1));
        i = i + 1;
    }
    String::new()
}

/// The organisation without its units; empty if there is none.
pub open spec fn main_org(card: Seq<PropertyModel>) -> Seq<char> {
    match spec_get(card, "ORG"@) {
        Some(p) => spec_trim(spec_components(p)[0]),
        None => Seq::empty(),
    }
}

/// The title, or the role where the title is missing or empty.
pub open spec fn title_or_role(card: Seq<PropertyModel>) -> Seq<char> {
    let title = spec_card_field(card, "TITLE"@);
    if title.len() > 0 {
        title
    } else {
        spec_card_field(card, "ROLE"@)
    }
}

/// The row of a card.
pub open spec fn spec_from_card(card: Seq<PropertyModel>) -> RowModel {
    RowModel {
        name: spec_card_name(card),
        org: main_org(card),
        title: title_or_role(card),
        email: first_nonempty(property_texts(spec_get_all(card, "EMAIL"@), false)),
        phone: first_nonempty(property_texts(spec_get_all(card, "TEL"@), false)),
    }
}

impl TableRow {
    /// The row of a card.
    pub fn from_card(card: &VCard) -> (out: Self)
        ensures
            out@ == spec_from_card(card@),
    {
        let name = card_name(card);
        let org = match card.get("ORG") {
            Some(p) => {
                let units = components(p);
                assert(texts(units@).len() == units@.len());
                assert(texts(units@)[0] == units@[0]@);
                trim(&units[0])
            },
            None => String::new(),
        };
        let mut title = card_field(card, "TITLE");
        if title.as_str().is_empty() {
            title = card_field(card, "ROLE");
        }
        let email = pick_nonempty(&card_texts(card, "EMAIL", false));
        let phone = pick_nonempty(&card_texts(card, "TEL", false));
        TableRow { name, org, title, email, phone }
    }
}

/// A text cut to a number of characters, with an ellipsis in the last place
/// where something was cut off. No characters leave no place for it.
pub open spec fn spec_truncate(s: Seq<char>, max: nat) -> Seq<char> {
    if s.len() <= max {
        s
    } else if max == 0 {
        Seq::empty()
    } else {
        s.take(max - 1) + "…"@
    }
}

/// Truncate a string to `max` visible characters, appending `…` if needed.
pub fn truncate(s: &str, max: usize) -> (out: String)
    ensures
        out@ == spec_truncate(s@, max as nat),
{
    let chars = chars_of(s);
    if chars.len() <= max {
        return s.to_owned();
    }
    if max == 0 {
        return String::new();
    }
    let mut out = string_between(&chars, 0, max - 1);
    out.append("…");
    assert(out@ =~= spec_truncate(s@, max as nat));
    out
}

/// The headings of the columns.
pub open spec fn spec_headers() -> Seq<Seq<char>> {
    seq!["#"@, "Name"@, "Organisation"@, "Title/Role"@, "Email"@, "Phone"@]
}

/// The greatest widths of the columns.
pub open spec fn spec_caps() -> Seq<nat> {
    seq![4nat, 28nat, 24nat, 22nat, 32nat, 20nat]
}

/// The cells of a row; the first holds its number, counted from one.
pub open spec fn cells(row: RowModel, index: nat) -> Seq<Seq<char>> {
    seq![spec_decimal(index + 1), row.name, row.org, row.title, row.email, row.phone]
}

/// The smaller of two numbers.
pub open spec fn least(a: nat, b: nat) -> nat {
    if a <= b {
        a
    } else {
        b
    }
}

/// The width of a column: that of the heading or of the widest cell, and no
/// more than the greatest width.
pub open spec fn column_width(rows: Seq<RowModel>, col: int) -> nat
    decreases rows.len(),
{
    let cap = spec_caps()[col];
    if rows.len() == 0 {
        least(spec_headers()[col].len(), cap)
    } else {
        let before = column_width(rows.drop_last(), col);
        let here = least(cells(rows.last(), (rows.len() - 1) as nat)[col].len(), cap);
        if before >= here {
            before
        } else {
            here
        }
    }
}

/// The widths of the columns.
pub open spec fn column_widths(rows: Seq<RowModel>) -> Seq<nat> {
    Seq::new(6, |col: int| column_width(rows, col))
}

/// The text of a list of rows.
pub open spec fn row_models(rows: Seq<TableRow>) -> Seq<RowModel> {
    rows.map_values(|r: TableRow| r@)
}

/// The numbers of a list of widths.
pub open spec fn width_model(widths: Seq<u16>) -> Seq<nat> {
    widths.map_values(|w: u16| w as nat)
}

/// A column is never wider than its greatest width.
pub proof fn lemma_column_width(rows: Seq<RowModel>, col: int)
    requires
        0 <= col < 6,
    ensures
        column_width(rows, col) <= spec_caps()[col] <= 32,
    decreases rows.len(),
{
    if rows.len() > 0 {
        lemma_column_width(rows.drop_last(), col);
    }
}

fn headers() -> (out: Vec<String>)
    ensures
        texts(out@) == spec_headers(),
{
    let out: Vec<String> = vec![
        "#".to_owned(),
        "Name".to_owned(),
        "Organisation".to_owned(),
        "Title/Role".to_owned(),
        "Email".to_owned(),
        "Phone".to_owned(),
    ];
    assert(texts(out@) =~= spec_headers());
    out
}

fn caps() -> (out: Vec<u16>)
    ensures
        width_model(out@) == spec_caps(),
{
    let out: Vec<u16> = vec![4u16, 28u16, 24u16, 22u16, 32u16, 20u16];
    assert(width_model(out@) =~= spec_caps());
    out
}

fn cells_of(row: &TableRow, index: usize) -> (out: Vec<String>)
    requires
        index < usize::MAX,
    ensures
        texts(out@) == cells(row@, index as nat),
{
    let out: Vec<String> = vec![
        decimal(index + 1),
        row.name.clone(),
        row.org.clone(),
        row.title.clone(),
        row.email.clone(),
        row.phone.clone(),
    ];
    assert(texts(out@) =~= cells(row@, index as nat));
    out
}

fn capped(n: usize, cap: u16) -> (out: u16)
    ensures
        out == least(n as nat, cap as nat),
{
    if n <= cap as usize {
        n as u16
    } else {
        cap
    }
}

fn widths_of(rows: &Vec<TableRow>) -> (out: Vec<u16>)
    ensures
        width_model(out@) == column_widths(row_models(rows@)),
{
    let heads = headers();
    let limits = caps();
    let ghost model = row_models(rows@);
    let ghost none = model.take(0);
    let mut out: Vec<u16> = Vec::new();
    assert(texts(heads@).len() == heads@.len());
    assert(width_model(limits@).len() == limits@.len());
    let mut col: usize = 0;
    while col < 6
        invariant
            col <= 6,
            heads@.len() == 6,
            limits@.len() == 6,
            texts(heads@) == spec_headers(),
            width_model(limits@) == spec_caps(),
            none.len() == 0,
            width_model(out@) == column_widths(none).take(col as int),
        decreases 6 - col,
    {
        let ghost before = out@;
        assert(texts(heads@)[col as int] == heads@[col as int]@);
        assert(width_model(limits@)[col as int] == limits@[col as int]);
        out.push(capped(count(&heads[col]), limits[col]));
        assert(width_model(out@) =~= width_model(before).push(column_width(none, col as int)));
        assert(column_widths(none).take(col + 1) =~= column_widths(none).take(col as int).push(
            column_width(none, col as int),
        ));
        col = col + 1;
    }
    assert(column_widths(none).take(6) =~= column_widths(none));
    let mut i: usize = 0;
    while i < rows.len()
        invariant
            limits@.len() == 6,
            width_model(limits@) == spec_caps(),
            model == row_models(rows@),
            i <= rows.len(),
            width_model(out@) == column_widths(model.take(i as int)),
        decreases rows.len() - i,
    {
        let ghost prev = model.take(i as int);
        let ghost next = model.take(i + 1);
        assert(next.drop_last() =~= prev);
        assert(next.last() == rows@[i as int]@);
        let line_cells = cells_of(&rows[i], i);
        let ghost start = out@;
        assert(texts(line_cells@).len() == line_cells@.len());
        assert(width_model(out@).len() == out@.len());
        let mut c: usize = 0;
        while c < 6
            invariant
                c <= 6,
                limits@.len() == 6,
                width_model(limits@) == spec_caps(),
                line_cells@.len() == 6,
                texts(line_cells@) == cells(next.last(), i as nat),
                next.len() == i + 1,
                next.drop_last() == prev,
                start.len() == 6,
                width_model(start) == column_widths(prev),
                out@.len() == 6,
                forall|k: int| 0 <= k < c ==> #[trigger] out@[k] == column_width(next, k),
                forall|k: int| c <= k < 6 ==> #[trigger] out@[k] == start[k],
            decreases 6 - c,
        {
            assert(texts(line_cells@)[c as int] == line_cells@[c as int]@);
            assert(width_model(limits@)[c as int] == limits@[c as int]);
            assert(width_model(start)[c as int] == start[c as int]);
            let here: u16 = capped(count(&line_cells[c]), limits[c]);
            if out[c] < here {
                out[c] = here;
            }
            c = c + 1;
        }
        assert(width_model(out@) =~= column_widths(next));
        i = i + 1;
    }
    assert(model.take(model.len() as int) =~= model);
    out
}

/// A dash for each place of a column, with one place more on either side.
pub open spec fn dashes(widths: Seq<nat>) -> Seq<Seq<char>> {
    widths.map_values(|w: nat| spec_repeat('─', w + 2))
}

/// A border line of the table.
pub open spec fn border(
    widths: Seq<nat>,
    left: Seq<char>,
    middle: Seq<char>,
    right: Seq<char>,
) -> LineLayout {
    line_of(left + spec_join(dashes(widths), middle) + right, Style::Cyan)
}

fn border_line(widths: &Vec<u16>, left: &str, middle: &str, right: &str) -> (out: Line)
    ensures
        out@ == border(width_model(widths@), left@, middle@, right@),
{
    let ghost model = dashes(width_model(widths@));
    let mut parts: Vec<String> = Vec::new();
    let mut i: usize = 0;
    while i < widths.len()
        invariant
            model == dashes(width_model(widths@)),
            i <= widths.len(),
            texts(parts@) == model.take(i as int),
        decreases widths.len() - i,
    {
        let ghost before = parts@;
        parts.push(repeat('─', widths[i] as usize + 2));
        assert(texts(parts@) =~= texts(before).push(model[i as int]));
        assert(model.take(i + 1) =~= model.take(i as int).push(model[i as int]));
        i = i + 1;
    }
    assert(model.take(model.len() as int) =~= model);
    let mut text = left.to_owned();
    text.append(&join(&parts, middle));
    text.append(right);
    line(text, Style::Cyan)
}

/// The headings, each filled up to the width of its column.
pub open spec fn header_cells(widths: Seq<nat>) -> Seq<Seq<char>> {
    Seq::new(6, |col: int| " "@ + spec_pad_right(spec_headers()[col], widths[col]) + " "@)
}

/// The line of headings.
pub open spec fn header_line(widths: Seq<nat>) -> LineLayout {
    line_of("│"@ + spec_join(header_cells(widths), "│"@) + "│"@, Style::BoldCyan)
}

fn heading_line(widths: &Vec<u16>) -> (out: Line)
    requires
        widths.len() == 6,
    ensures
        out@ == header_line(width_model(widths@)),
{
    let heads = headers();
    assert(texts(heads@).len() == heads@.len());
    let ghost model = header_cells(width_model(widths@));
    let mut parts: Vec<String> = Vec::new();
    let mut i: usize = 0;
    while i < 6
        invariant
            widths.len() == 6,
            heads@.len() == 6,
            texts(heads@) == spec_headers(),
            model == header_cells(width_model(widths@)),
            i <= 6,
            texts(parts@) == model.take(i as int),
        decreases 6 - i,
    {
        let ghost before = parts@;
        assert(texts(heads@)[i as int] == heads@[i as int]@);
        assert(width_model(widths@)[i as int] == widths@[i as int]);
        let mut cell = " ".to_owned();
        cell.append(&pad_right(&heads[i], widths[i] as usize));
        cell.append(" ");
        parts.push(cell);
        assert(texts(parts@) =~= texts(before).push(model[i as int]));
        assert(model.take(i + 1) =~= model.take(i as int).push(model[i as int]));
        i = i + 1;
    }
    assert(model.take(6) =~= model);
    let mut text = "│".to_owned();
    text.append(&join(&parts, "│"));
    text.append("│");
    line(text, Style::BoldCyan)
}

/// The style of a column: the number is dimmed and the name is bold.
pub open spec fn column_style(col: int) -> Style {
    if col == 0 {
        Style::Dimmed
    } else if col == 1 {
        Style::Bold
    } else {
        Style::Plain
    }
}

/// A cell, cut to the width of its column and filled up to it.
pub open spec fn cell_span(text: Seq<char>, width: nat, col: int) -> SpanModel {
    SpanModel { text: spec_truncate(text, width), style: column_style(col), width }
}

/// The first so many cells of a row, each behind a bar.
pub open spec fn cell_spans(texts: Seq<Seq<char>>, widths: Seq<nat>, cols: nat) -> Seq<SpanModel>
    decreases cols,
{
    if cols == 0 {
        Seq::empty()
    } else {
        let col = cols - 1;
        cell_spans(texts, widths, col as nat) + seq![
            span_of("│ "@, Style::Plain),
            cell_span(texts[col], widths[col], col),
            span_of(" "@, Style::Plain),
        ]
    }
}

/// The line of a row.
pub open spec fn body_line(row: RowModel, index: nat, widths: Seq<nat>) -> LineLayout {
    LineLayout {
        spans: cell_spans(cells(row, index), widths, 6).push(span_of("│"@, Style::Plain)),
        style: Style::Plain,
    }
}

fn row_line(row: &TableRow, index: usize, widths: &Vec<u16>) -> (out: Line)
    requires
        widths.len() == 6,
        index < usize::MAX,
    ensures
        out@ == body_line(row@, index as nat, width_model(widths@)),
{
    let line_cells = cells_of(row, index);
    assert(texts(line_cells@).len() == line_cells@.len());
    let ghost model = cells(row@, index as nat);
    let ghost wide = width_model(widths@);
    let mut spans: Vec<Span> = Vec::new();
    let mut col: usize = 0;
    assert(span_models(spans@) =~= Seq::<SpanModel>::empty());
    while col < 6
        invariant
            widths.len() == 6,
            line_cells@.len() == 6,
            texts(line_cells@) == model,
            wide == width_model(widths@),
            col <= 6,
            span_models(spans@) == cell_spans(model, wide, col as nat),
        decreases 6 - col,
    {
        let ghost before = spans@;
        assert(texts(line_cells@)[col as int] == line_cells@[col as int]@);
        assert(wide[col as int] == widths@[col as int]);
        let style = if col == 0 {
            Style::Dimmed
        } else if col == 1 {
            Style::Bold
        } else {
            Style::Plain
        };
        let text = truncate(&line_cells[col], widths[col] as usize);
        spans.push(span("│ ".to_owned(), Style::Plain));
        spans.push(Span { text, style, width: widths[col] });
        spans.push(span(" ".to_owned(), Style::Plain));
        assert(span_models(spans@) =~= span_models(before) + seq![
            span_of("│ "@, Style::Plain),
            cell_span(model[col as int], wide[col as int], col as int),
            span_of(" "@, Style::Plain),
        ]);
        col = col + 1;
    }
    let ghost before = spans@;
    spans.push(span("│".to_owned(), Style::Plain));
    assert(span_models(spans@) =~= span_models(before).push(span_of("│"@, Style::Plain)));
    Line { spans, style: Style::Plain }
}

/// The lines of the rows.
pub open spec fn body_lines(rows: Seq<RowModel>, widths: Seq<nat>) -> Seq<LineLayout> {
    Seq::new(rows.len(), |i: int| body_line(rows[i], i as nat, widths))
}

/// An `s` where a number is not one.
pub open spec fn plural(n: nat) -> Seq<char> {
    if n == 1 {
        ""@
    } else {
        "s"@
    }
}

/// An `s` where a number is not one.
pub fn plural_ending(n: usize) -> (out: String)
    ensures
        out@ == plural(n as nat),
{
    if n == 1 {
        "".to_owned()
    } else {
        "s".to_owned()
    }
}

/// The line below the table, with the number of contacts.
pub open spec fn footer(n: nat) -> LineLayout {
    line_of("  "@ + spec_decimal(n) + " contact"@ + plural(n), Style::Dimmed)
}

/// The table of a list of rows.
pub open spec fn spec_table(rows: Seq<RowModel>) -> Seq<LineLayout> {
    let widths = column_widths(rows);
    seq![
        border(widths, "┌"@, "┬"@, "┐"@),
        header_line(widths),
        border(widths, "├"@, "┼"@, "┤"@),
    ] + body_lines(rows, widths) + seq![border(widths, "└"@, "┴"@, "┘"@), footer(rows.len())]
}

/// The table of a list of rows.
pub fn table(rows: &Vec<TableRow>) -> (out: Vec<Line>)
    ensures
        layouts(out@) == spec_table(row_models(rows@)),
{
    let widths = widths_of(rows);
    let ghost model = row_models(rows@);
    let ghost wide = column_widths(model);
    assert(width_model(widths@).len() == widths@.len());
    let mut out: Vec<Line> = vec![
        border_line(&widths, "┌", "┬", "┐"),
        heading_line(&widths),
        border_line(&widths, "├", "┼", "┤"),
    ];
    let ghost top = seq![
        border(wide, "┌"@, "┬"@, "┐"@),
        header_line(wide),
        border(wide, "├"@, "┼"@, "┤"@),
    ];
    let ghost body = body_lines(model, wide);
    assert(layouts(out@) =~= top + body.take(0));
    let mut i: usize = 0;
    while i < rows.len()
        invariant
            widths@.len() == 6,
            width_model(widths@) == wide,
            model == row_models(rows@),
            body == body_lines(model, wide),
            i <= rows.len(),
            layouts(out@) == top + body.take(i as int),
        decreases rows.len() - i,
    {
        let ghost before = out@;
        out.push(row_line(&rows[i], i, &widths));
        assert(layouts(out@) =~= layouts(before).push(body[i as int]));
        assert(body.take(i + 1) =~= body.take(i as int).push(body[i as int]));
        assert(layouts(out@) =~= top + body.take(i + 1));
        i = i + 1;
    }
    assert(body.take(body.len() as int) =~= body);
    let ghost before = out@;
    out.push(border_line(&widths, "└", "┴", "┘"));
    let mut text = "  ".to_owned();
    text.append(&decimal(rows.len()));
    text.append(" contact");
    text.append(&plural_ending(rows.len()));
    out.push(line(text, Style::Dimmed));
    assert(layouts(out@) =~= layouts(before) + seq![
        border(wide, "└"@, "┴"@, "┘"@),
        footer(model.len()),
    ]);
    out
}

/// The rows of a list of cards.
pub open spec fn card_rows(cards: Seq<Seq<PropertyModel>>) -> Seq<RowModel> {
    cards.map_values(|c: Seq<PropertyModel>| spec_from_card(c))
}

/// The table of a list of cards as it comes out on the terminal.
pub fn display_table(cards: &[VCard]) -> (out: Vec<String>)
    ensures
        lines_painted(spec_table(card_rows(card_models(cards@))), texts(out@)),
{
    let ghost model = card_rows(card_models(cards@));
    let mut rows: Vec<TableRow> = Vec::new();
    let mut i: usize = 0;
    while i < cards.len()
        invariant
            model == card_rows(card_models(cards@)),
            i <= cards.len(),
            row_models(rows@) == model.take(i as int),
        decreases cards.len() - i,
    {
        let ghost before = rows@;
        rows.push(TableRow::from_card(&cards[i]));
        assert(row_models(rows@) =~= row_models(before).push(model[i as int]));
        assert(model.take(i + 1) =~= model.take(i as int).push(model[i as int]));
        i = i + 1;
    }
    assert(model.take(model.len() as int) =~= model);
    render_all(&table(&rows))
}

} // verus!
