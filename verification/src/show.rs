//! The view of a single card, as labelled rows.

use crate::card::{
    borrowed_models, spec_get, spec_get_all, spec_param, PropertyModel, VCard,
};
use crate::fields::{
    card_field, card_name, card_org, property_text, spec_card_field, spec_card_name,
    spec_card_org, spec_property_text,
};
use crate::style::{layouts, lines_painted, render_all, span_models, Line, LineLayout, Span};
use crate::style::{SpanModel, Style};
use crate::text::{
    count, decimal, lines, lower, pad_left, repeat, spec_decimal, spec_lines, spec_lower,
    spec_pad_left, spec_repeat, texts,
};
use vstd::prelude::*;

verus! {

/// The width of the column of labels.
pub const LABEL_WIDTH: usize = 14;

/// The width of the rules above and below a card.
pub const RULE_WIDTH: usize = 52;

/// A text in a style.
pub open spec fn span_of(text: Seq<char>, style: Style) -> SpanModel {
    SpanModel { text, style, width: 0 }
}

/// A line of one text in one style.
pub open spec fn line_of(text: Seq<char>, style: Style) -> LineLayout {
    LineLayout { spans: seq![span_of(text, Style::Plain)], style }
}

/// A text in a style.
pub fn span(text: String, style: Style) -> (out: Span)
    ensures
        out@ == span_of(text@, style),
{
    Span { text, style, width: 0 }
}

/// A line of one text in one style.
pub fn line(text: String, style: Style) -> (out: Line)
    ensures
        out@ == line_of(text@, style),
{
    let spans: Vec<Span> = vec![span(text, Style::Plain)];
    assert(span_models(spans@) =~= seq![span_of(text@, Style::Plain)]);
    Line { spans, style }
}

/// The hint behind a value, as it is shown.
pub open spec fn hint_text(hint: Seq<char>) -> Seq<char> {
    "  ["@ + spec_lower(hint) + "]"@
}

/// The first line of a row: the label, the first line of the value, and
/// behind it the hint, if there is one.
pub open spec fn row_head(label: Seq<char>, first: Seq<char>, hint: Option<Seq<char>>) -> LineLayout {
    let spans = seq![
        span_of("  "@, Style::Plain),
        span_of(spec_pad_left(label, LABEL_WIDTH as nat), Style::BoldBlue),
        span_of("  "@ + first, Style::Plain),
    ];
    LineLayout {
        spans: match hint {
            Some(h) => spans.push(span_of(hint_text(h), Style::Dimmed)),
            None => spans,
        },
        style: Style::Plain,
    }
}

/// A further line of a row, below the first line of the value.
pub open spec fn row_more(text: Seq<char>) -> LineLayout {
    line_of(spec_repeat(' ', (2 + LABEL_WIDTH + 2) as nat) + text, Style::Plain)
}

/// A row: a label with a value of one or more lines. A value without lines
/// gives no row.
pub open spec fn spec_row(label: Seq<char>, value: Seq<char>, hint: Option<Seq<char>>) -> Seq<
    LineLayout,
> {
    let all = spec_lines(value);
    if all.len() == 0 {
        Seq::empty()
    } else {
        seq![row_head(label, all[0], hint)] + all.skip(1).map_values(|l: Seq<char>| row_more(l))
    }
}

/// The text of an optional string.
pub open spec fn opt_text(s: Option<&str>) -> Option<Seq<char>> {
    match s {
        Some(t) => Some(t@),
        None => None,
    }
}

/// A row: a label with a value of one or more lines.
pub fn row(label: &str, value: &str, type_hint: Option<&str>) -> (out: Vec<Line>)
    ensures
        layouts(out@) == spec_row(label@, value@, opt_text(type_hint)),
{
    let all = lines(value);
    let ghost model = spec_lines(value@);
    let ghost more = model.skip(1).map_values(|l: Seq<char>| row_more(l));
    assert(texts(all@).len() == all@.len());
    let mut out: Vec<Line> = Vec::new();
    if all.len() == 0 {
        assert(layouts(out@) =~= Seq::<LineLayout>::empty());
        return out;
    }
    assert(texts(all@)[0] == all@[0]@);
    let mut first = "  ".to_owned();
    first.append(&all[0]);
    let mut spans: Vec<Span> = vec![
        span("  ".to_owned(), Style::Plain),
        span(pad_left(label, LABEL_WIDTH), Style::BoldBlue),
        span(first, Style::Plain),
    ];
    let ghost plain = seq![
        span_of("  "@, Style::Plain),
        span_of(spec_pad_left(label@, LABEL_WIDTH as nat), Style::BoldBlue),
        span_of("  "@ + model[0], Style::Plain),
    ];
    assert(span_models(spans@) =~= plain);
    if let Some(t) = type_hint {
        let mut hint = "  [".to_owned();
        hint.append(&lower(t));
        hint.append("]");
        spans.push(span(hint, Style::Dimmed));
        assert(span_models(spans@) =~= plain.push(span_of(hint_text(t@), Style::Dimmed)));
    }
    out.push(Line { spans, style: Style::Plain });
    let ghost head = row_head(label@, model[0], opt_text(type_hint));
    assert(layouts(out@) =~= seq![head] + more.take(0));
    let indent = repeat(' ', 2 + LABEL_WIDTH + 2);
    let mut i: usize = 1;
    while i < all.len()
        invariant
            texts(all@) == model,
            more == model.skip(1).map_values(|l: Seq<char>| row_more(l)),
            indent@ == spec_repeat(' ', (2 + LABEL_WIDTH + 2) as nat),
            1 <= i <= all.len(),
            layouts(out@) == seq![head] + more.take(i - 1),
        decreases all.len() - i,
    {
        let ghost before = out@;
        assert(texts(all@)[i as int] == all@[i as int]@);
        let mut text = indent.clone();
        text.append(&all[i]);
        out.push(line(text, Style::Plain));
        assert(layouts(out@) =~= layouts(before).push(more[i - 1]));
        assert(more.take(i as int) =~= more.take(i - 1).push(more[i - 1]));
        assert(layouts(out@) =~= seq![head] + more.take(i as int));
        i = i + 1;
    }
    assert(more.take(more.len() as int) =~= more);
    out
}

/// A row as it comes out on the terminal.
pub fn print_row(label: &str, value: &str, type_hint: Option<&str>) -> (out: Vec<String>)
    ensures
        lines_painted(spec_row(label@, value@, opt_text(type_hint)), texts(out@)),
{
    render_all(&row(label, value, type_hint))
}

/// A row for a value that may be missing: an empty value gives no row.
pub open spec fn row_if_any(label: Seq<char>, value: Seq<char>, hint: Option<Seq<char>>) -> Seq<
    LineLayout,
> {
    if value.len() == 0 {
        Seq::empty()
    } else {
        spec_row(label, value, hint)
    }
}

fn add_row(out: &mut Vec<Line>, label: &str, value: &str, type_hint: Option<&str>)
    ensures
        layouts(final(out)@) == layouts(old(out)@) + row_if_any(
            label@,
            value@,
            opt_text(type_hint),
        ),
{
    let ghost before = out@;
    if !value.is_empty() {
        let mut more = row(label, value, type_hint);
        let ghost added = more@;
        out.append(&mut more);
        assert(layouts(out@) =~= layouts(before) + layouts(added));
    }
    assert(layouts(before) + Seq::<LineLayout>::empty() =~= layouts(before));
}

/// The rows of a list of properties, each with its type as the hint.
pub open spec fn property_rows(label: Seq<char>, props: Seq<PropertyModel>, address: bool) -> Seq<
    LineLayout,
>
    decreases props.len(),
{
    if props.len() == 0 {
        Seq::empty()
    } else {
        let p = props.last();
        property_rows(label, props.drop_last(), address) + row_if_any(
            label,
            spec_property_text(p, address),
            spec_param(p.params, "TYPE"@),
        )
    }
}

fn add_properties(out: &mut Vec<Line>, label: &str, card: &VCard, name: &str, address: bool)
    ensures
        layouts(final(out)@) == layouts(old(out)@) + property_rows(
            label@,
            spec_get_all(card@, name@),
            address,
        ),
{
    let props = card.get_all(name);
    let ghost model = spec_get_all(card@, name@);
    let ghost before = layouts(out@);
    let mut i: usize = 0;
    assert(before + Seq::<LineLayout>::empty() =~= before);
    while i < props.len()
        invariant
            borrowed_models(props@) == model,
            i <= props.len(),
            layouts(out@) == before + property_rows(label@, model.take(i as int), address),
        decreases props.len() - i,
    {
        let ghost next = model.take(i + 1);
        assert(borrowed_models(props@)[i as int] == props@[i as int]@);
        assert(next.drop_last() =~= model.take(i as int));
        let text = property_text(props[i], address);
        add_row(out, label, &text, props[i].type_param());
        assert(layouts(out@) =~= before + property_rows(label@, next, address));
        i = i + 1;
    }
    assert(model.take(model.len() as int) =~= model);
}

/// The rows of one field; none if it is empty.
pub open spec fn field_rows(label: Seq<char>, card: Seq<PropertyModel>, name: Seq<char>) -> Seq<
    LineLayout,
> {
    row_if_any(label, spec_card_field(card, name), None)
}

/// The title of a card, with its number where there are several.
pub open spec fn card_title(index: nat, total: nat) -> Seq<char> {
    if total > 1 {
        " Contact "@ + spec_decimal(index + 1) + "/"@ + spec_decimal(total) + "  "@
    } else {
        " Contact "@
    }
}

/// The rule above a card, with the title in it.
pub open spec fn title_line(title: Seq<char>) -> LineLayout {
    let fill = if title.len() + 4 < RULE_WIDTH {
        (RULE_WIDTH - (title.len() + 4)) as nat
    } else {
        0
    };
    LineLayout {
        spans: seq![
            span_of("── "@, Style::Plain),
            span_of(title, Style::Bold),
            span_of(" "@ + spec_repeat('─', fill), Style::Plain),
        ],
        style: Style::Cyan,
    }
}

/// The name below the title, and an empty line; nothing if there is no name.
pub open spec fn name_lines(name: Seq<char>) -> Seq<LineLayout> {
    if name.len() == 0 {
        Seq::empty()
    } else {
        seq![
            LineLayout {
                spans: seq![span_of("  "@, Style::Plain), span_of(name, Style::BoldWhite)],
                style: Style::Plain,
            },
            line_of(""@, Style::Plain),
        ]
    }
}

/// The row that tells of a photo.
pub open spec fn photo_rows(card: Seq<PropertyModel>) -> Seq<LineLayout> {
    if spec_get(card, "PHOTO"@) is Some {
        spec_row("Photo"@, "(embedded)"@, None)
    } else {
        Seq::empty()
    }
}

/// The view of a card.
#[verifier::opaque]
pub open spec fn spec_card_view(card: Seq<PropertyModel>, index: nat, total: nat) -> Seq<
    LineLayout,
> {
    seq![title_line(card_title(index, total))] + name_lines(spec_card_name(card)) + row_if_any(
        "Organisation"@,
        spec_card_org(card),
        None,
    ) + field_rows("Title"@, card, "TITLE"@) + field_rows("Role"@, card, "ROLE"@) + property_rows(
        "Email"@,
        spec_get_all(card, "EMAIL"@),
        false,
    ) + property_rows("Phone"@, spec_get_all(card, "TEL"@), false) + property_rows(
        "Address"@,
        spec_get_all(card, "ADR"@),
        true,
    ) + field_rows("Birthday"@, card, "BDAY"@) + field_rows("Anniversary"@, card, "ANNIVERSARY"@)
        + property_rows("Website"@, spec_get_all(card, "URL"@), false) + property_rows(
        "IM"@,
        spec_get_all(card, "IMPP"@),
        false,
    ) + field_rows("Note"@, card, "NOTE"@) + photo_rows(card) + seq![
        line_of(spec_repeat('─', RULE_WIDTH as nat), Style::Cyan),
    ]
}

fn title_of(index: usize, total: usize) -> (out: String)
    requires
        total > 1 ==> index < usize::MAX,
    ensures
        out@ == card_title(index as nat, total as nat),
{
    let mut out = " Contact ".to_owned();
    if total > 1 {
        out.append(&decimal(index + 1));
        out.append("/");
        out.append(&decimal(total));
        out.append("  ");
    }
    out
}

fn title_rule(title: String) -> (out: Line)
    ensures
        out@ == title_line(title@),
{
    let n: usize = count(&title);
    let fill: usize = if n < RULE_WIDTH - 4 {
        RULE_WIDTH - 4 - n
    } else {
        0
    };
    let mut tail = " ".to_owned();
    tail.append(&repeat('─', fill));
    let spans: Vec<Span> = vec![
        span("── ".to_owned(), Style::Plain),
        span(title, Style::Bold),
        span(tail, Style::Plain),
    ];
    assert(span_models(spans@) =~= title_line(title@).spans);
    Line { spans, style: Style::Cyan }
}

fn add_name(out: &mut Vec<Line>, name: String)
    ensures
        layouts(final(out)@) == layouts(old(out)@) + name_lines(name@),
{
    let ghost before = layouts(out@);
    if !name.as_str().is_empty() {
        let spans: Vec<Span> = vec![
            span("  ".to_owned(), Style::Plain),
            span(name, Style::BoldWhite),
        ];
        assert(span_models(spans@) =~= name_lines(name@)[0].spans);
        out.push(Line { spans, style: Style::Plain });
        out.push(line("".to_owned(), Style::Plain));
    }
    assert(layouts(out@) =~= before + name_lines(name@));
}

/// The view of a card: a title, the name, a row for each field that is not
/// empty, and a rule.
pub fn card_view(card: &VCard, index: usize, total: usize) -> (out: Vec<Line>)
    requires
        total > 1 ==> index < usize::MAX,
    ensures
        layouts(out@) == spec_card_view(card@, index as nat, total as nat),
{
    proof {
        reveal(spec_card_view);
    }
    let mut out: Vec<Line> = Vec::new();
    out.push(title_rule(title_of(index, total)));
    assert(layouts(out@) =~= seq![title_line(card_title(index as nat, total as nat))]);
    add_name(&mut out, card_name(card));
    add_row(&mut out, "Organisation", &card_org(card), None);
    add_row(&mut out, "Title", &card_field(card, "TITLE"), None);
    add_row(&mut out, "Role", &card_field(card, "ROLE"), None);
    add_properties(&mut out, "Email", card, "EMAIL", false);
    add_properties(&mut out, "Phone", card, "TEL", false);
    add_properties(&mut out, "Address", card, "ADR", true);
    add_row(&mut out, "Birthday", &card_field(card, "BDAY"), None);
    add_row(&mut out, "Anniversary", &card_field(card, "ANNIVERSARY"), None);
    add_properties(&mut out, "Website", card, "URL", false);
    add_properties(&mut out, "IM", card, "IMPP", false);
    add_row(&mut out, "Note", &card_field(card, "NOTE"), None);
    let ghost before = layouts(out@);
    if card.get("PHOTO").is_some() {
        let mut photo = row("Photo", "(embedded)", None);
        let ghost mid = out@;
        let ghost added = photo@;
        out.append(&mut photo);
        assert(layouts(out@) =~= layouts(mid) + layouts(added));
    }
    assert(layouts(out@) =~= before + photo_rows(card@));
    let ghost last = out@;
    out.push(line(repeat('─', RULE_WIDTH), Style::Cyan));
    assert(layouts(out@) =~= layouts(last) + seq![
        line_of(spec_repeat('─', RULE_WIDTH as nat), Style::Cyan),
    ]);
    out
}

/// A card as it comes out on the terminal.
pub fn display_card(card: &VCard, index: usize, total: usize) -> (out: Vec<String>)
    requires
        total > 1 ==> index < usize::MAX,
    ensures
        lines_painted(spec_card_view(card@, index as nat, total as nat), texts(out@)),
{
    render_all(&card_view(card, index, total))
}

} // verus!
