//! Laws of what the view of a card shows.

use crate::card::{spec_get_all, spec_param, PropertyModel};
use crate::fields::{spec_card_field, spec_card_name, spec_card_org, spec_property_text};
use crate::laws::contacts::{is_filled, lacks, law_get_all_is_filter, law_get_finds_first};
use crate::show::{
    card_title, line_of, name_lines, property_rows, spec_card_view, spec_row, title_line, RULE_WIDTH,
};
use crate::style::{LineLayout, SpanModel, Style};
use crate::text::{spec_eq_ignore_case, spec_repeat};
use vstd::prelude::*;

verus! {

/// The row of a property: a label, its text, and its type as the hint. There
/// is none where the property has another name or means nothing.
pub open spec fn shown_row(
    p: PropertyModel,
    name: Seq<char>,
    label: Seq<char>,
    address: bool,
) -> Seq<LineLayout> {
    if is_filled(p, name, address) {
        spec_row(label, spec_property_text(p, address), spec_param(p.params, "TYPE"@))
    } else {
        Seq::empty()
    }
}

/// The rows of all properties of a card with a name, in their order.
pub open spec fn shown_rows(
    card: Seq<PropertyModel>,
    name: Seq<char>,
    label: Seq<char>,
    address: bool,
) -> Seq<LineLayout>
    decreases card.len(),
{
    if card.len() == 0 {
        Seq::empty()
    } else {
        shown_rows(card.drop_last(), name, label, address) + shown_row(
            card.last(),
            name,
            label,
            address,
        )
    }
}

/// Whether the properties with a name are shown one by one under a label.
pub open spec fn is_listed(name: Seq<char>, label: Seq<char>, address: bool) -> bool {
    ||| name == "EMAIL"@ && label == "Email"@ && !address
    ||| name == "TEL"@ && label == "Phone"@ && !address
    ||| name == "ADR"@ && label == "Address"@ && address
    ||| name == "URL"@ && label == "Website"@ && !address
    ||| name == "IMPP"@ && label == "IM"@ && !address
}

/// Whether lines stand in a view with others before and behind them.
pub open spec fn is_between(
    view: Seq<LineLayout>,
    before: Seq<LineLayout>,
    lines: Seq<LineLayout>,
    after: Seq<LineLayout>,
) -> bool {
    view == before + lines + after
}

proof fn lemma_rows_shown(
    card: Seq<PropertyModel>,
    name: Seq<char>,
    label: Seq<char>,
    address: bool,
)
    ensures
        property_rows(label, spec_get_all(card, name), address) == shown_rows(
            card,
            name,
            label,
            address,
        ),
    decreases card.len(),
{
    if card.len() == 0 {
    } else {
        let init = card.drop_last();
        lemma_rows_shown(init, name, label, address);
        law_get_all_is_filter(init, card.last(), name);
        assert(init.push(card.last()) =~= card);
        let found = spec_get_all(init, name);
        if spec_eq_ignore_case(card.last().name, name) {
            assert(found.push(card.last()).drop_last() =~= found);
        }
        assert(property_rows(label, spec_get_all(card, name), address) =~= shown_rows(
            card,
            name,
            label,
            address,
        ));
    }
}

/// The rows of a card are those of its parts: each property adds its own row
/// in its place, whatever stands before and behind it.
pub proof fn law_rows_concat(
    a: Seq<PropertyModel>,
    b: Seq<PropertyModel>,
    name: Seq<char>,
    label: Seq<char>,
    address: bool,
)
    ensures
        shown_rows(a + b, name, label, address) == shown_rows(a, name, label, address) + shown_rows(
            b,
            name,
            label,
            address,
        ),
    decreases b.len(),
{
    if b.len() == 0 {
        assert(a + b =~= a);
        assert(shown_rows(a, name, label, address) + shown_rows(b, name, label, address)
            =~= shown_rows(a, name, label, address));
    } else {
        law_rows_concat(a, b.drop_last(), name, label, address);
        assert((a + b).drop_last() =~= a + b.drop_last());
        assert((a + b).last() == b.last());
        assert(shown_rows(a + b, name, label, address) =~= shown_rows(a, name, label, address)
            + shown_rows(b, name, label, address));
    }
}

/// A field that is shown once: nothing where it is empty.
pub open spec fn shown_once(label: Seq<char>, text: Seq<char>) -> Seq<LineLayout> {
    if text.len() == 0 {
        Seq::empty()
    } else {
        spec_row(label, text, None)
    }
}

/// The name of a contact in bold white behind two spaces, and an empty line.
pub open spec fn shown_name(name: Seq<char>) -> Seq<LineLayout> {
    if name.len() == 0 {
        Seq::empty()
    } else {
        seq![
            LineLayout {
                spans: seq![
                    SpanModel { text: "  "@, style: Style::Plain, width: 0 },
                    SpanModel { text: name, style: Style::BoldWhite, width: 0 },
                ],
                style: Style::Plain,
            },
            LineLayout {
                spans: seq![SpanModel { text: ""@, style: Style::Plain, width: 0 }],
                style: Style::Plain,
            },
        ]
    }
}

/// The parts of the view of a card between its two rules, from the top.
pub open spec fn shown_parts(card: Seq<PropertyModel>) -> Seq<Seq<LineLayout>> {
    seq![
        shown_name(spec_card_name(card)),
        shown_once("Organisation"@, spec_card_org(card)),
        shown_once("Title"@, spec_card_field(card, "TITLE"@)),
        shown_once("Role"@, spec_card_field(card, "ROLE"@)),
        shown_rows(card, "EMAIL"@, "Email"@, false),
        shown_rows(card, "TEL"@, "Phone"@, false),
        shown_rows(card, "ADR"@, "Address"@, true),
        shown_once("Birthday"@, spec_card_field(card, "BDAY"@)),
        shown_once("Anniversary"@, spec_card_field(card, "ANNIVERSARY"@)),
        shown_rows(card, "URL"@, "Website"@, false),
        shown_rows(card, "IMPP"@, "IM"@, false),
        shown_once("Note"@, spec_card_field(card, "NOTE"@)),
        if lacks(card, "PHOTO"@) {
            Seq::empty()
        } else {
            spec_row("Photo"@, "(embedded)"@, None)
        },
    ]
}

/// The lines of the parts one below the other.
pub open spec fn stacked(parts: Seq<Seq<LineLayout>>) -> Seq<LineLayout>
    decreases parts.len(),
{
    if parts.len() == 0 {
        Seq::empty()
    } else {
        stacked(parts.drop_last()) + parts.last()
    }
}

proof fn lemma_stacked(parts: Seq<Seq<LineLayout>>, k: int)
    requires
        0 <= k < parts.len(),
    ensures
        stacked(parts) == stacked(parts.take(k)) + parts[k] + stacked(parts.skip(k + 1)),
    decreases parts.len(),
{
    let init = parts.drop_last();
    if k == parts.len() - 1 {
        assert(parts.take(k) =~= init);
        assert(parts.skip(k + 1) =~= Seq::<Seq<LineLayout>>::empty());
        assert(stacked(parts) =~= stacked(parts.take(k)) + parts[k] + stacked(parts.skip(k + 1)));
    } else {
        lemma_stacked(init, k);
        assert(init.take(k) =~= parts.take(k));
        assert(parts.skip(k + 1).drop_last() =~= init.skip(k + 1));
        assert(parts.skip(k + 1).last() == parts.last());
        assert(stacked(parts) =~= stacked(parts.take(k)) + parts[k] + stacked(parts.skip(k + 1)));
    }
}

/// Between its two rules the view of a card shows each of its parts, in their
/// order and nothing else.
pub proof fn law_view_parts(card: Seq<PropertyModel>, index: nat, total: nat)
    ensures
        ({
            let view = spec_card_view(card, index, total);
            &&& view.len() >= 2
            &&& view.subrange(1, view.len() - 1) == stacked(shown_parts(card))
        }),
{
    let parts = shown_parts(card);
    let view = spec_card_view(card, index, total);
    lemma_view_sum(card, index, total);
    let top = seq![view[0]];
    lemma_below(top, parts);
    assert(view.subrange(1, view.len() - 1) =~= stacked(parts));
}

/// Lines with the parts below them.
spec fn below(top: Seq<LineLayout>, parts: Seq<Seq<LineLayout>>) -> Seq<LineLayout>
    decreases parts.len(),
{
    if parts.len() == 0 {
        top
    } else {
        below(top, parts.drop_last()) + parts.last()
    }
}

proof fn lemma_below(top: Seq<LineLayout>, parts: Seq<Seq<LineLayout>>)
    ensures
        below(top, parts) == top + stacked(parts),
    decreases parts.len(),
{
    if parts.len() == 0 {
        assert(top + stacked(parts) =~= top);
    } else {
        lemma_below(top, parts.drop_last());
        assert(top + stacked(parts.drop_last()) + parts.last() =~= top + (stacked(parts.drop_last())
            + parts.last()));
    }
}

proof fn lemma_thirteen(top: Seq<LineLayout>, p: Seq<Seq<LineLayout>>)
    requires
        p.len() == 13,
    ensures
        below(top, p) == top + p[0] + p[1] + p[2] + p[3] + p[4] + p[5] + p[6] + p[7] + p[8] + p[9]
            + p[10] + p[11] + p[12],
{
    reveal_with_fuel(below, 14);
}

proof fn lemma_view_sum(card: Seq<PropertyModel>, index: nat, total: nat)
    ensures
        ({
            let view = spec_card_view(card, index, total);
            &&& view.len() >= 2
            &&& view == below(seq![view[0]], shown_parts(card)) + seq![view[view.len() - 1]]
        }),
{
    reveal(spec_card_view);
    lemma_rows_shown(card, "EMAIL"@, "Email"@, false);
    lemma_rows_shown(card, "TEL"@, "Phone"@, false);
    lemma_rows_shown(card, "ADR"@, "Address"@, true);
    lemma_rows_shown(card, "URL"@, "Website"@, false);
    lemma_rows_shown(card, "IMPP"@, "IM"@, false);
    law_get_finds_first(card, "PHOTO"@);
    let p = shown_parts(card);
    let top = seq![title_line(card_title(index, total))];
    let bottom = seq![line_of(spec_repeat('─', RULE_WIDTH as nat), Style::Cyan)];
    lemma_thirteen(top, p);
    lemma_below(top, p);
    assert(p[0] == name_lines(spec_card_name(card)));
    let view = spec_card_view(card, index, total);
    assert(view == below(top, p) + bottom);
    assert(view[0] == top[0]);
    assert(seq![view[0]] =~= top);
    assert(view[view.len() - 1] == bottom[0]);
    assert(seq![view[view.len() - 1]] =~= bottom);
}

/// Of each kind that a contact can have more of (addresses, numbers, websites
/// and the like) the view of a card shows all: a row for every property of that
/// name that means something, one below the other in their order, with its
/// label, its text and its type.
pub proof fn law_view_shows_all(
    card: Seq<PropertyModel>,
    index: nat,
    total: nat,
    name: Seq<char>,
    label: Seq<char>,
    address: bool,
)
    requires
        is_listed(name, label, address),
    ensures
        exists|before: Seq<LineLayout>, after: Seq<LineLayout>| #[trigger]
            is_between(
                spec_card_view(card, index, total),
                before,
                shown_rows(card, name, label, address),
                after,
            ),
{
    law_view_parts(card, index, total);
    let parts = shown_parts(card);
    let view = spec_card_view(card, index, total);
    let k: int = if name == "EMAIL"@ && label == "Email"@ && !address {
        4
    } else if name == "TEL"@ && label == "Phone"@ && !address {
        5
    } else if name == "ADR"@ && label == "Address"@ && address {
        6
    } else if name == "URL"@ && label == "Website"@ && !address {
        9
    } else {
        10
    };
    assert(parts[k] == shown_rows(card, name, label, address));
    lemma_part_between(view, parts, k);
}

proof fn lemma_part_between(view: Seq<LineLayout>, parts: Seq<Seq<LineLayout>>, k: int)
    requires
        view.len() >= 2,
        view.subrange(1, view.len() - 1) == stacked(parts),
        0 <= k < parts.len(),
    ensures
        exists|before: Seq<LineLayout>, after: Seq<LineLayout>| #[trigger]
            is_between(view, before, parts[k], after),
{
    lemma_stacked(parts, k);
    let before = seq![view[0]] + stacked(parts.take(k));
    let after = stacked(parts.skip(k + 1)) + seq![view[view.len() - 1]];
    assert(view =~= seq![view[0]] + view.subrange(1, view.len() - 1) + seq![view[view.len() - 1]]);
    assert(view =~= before + parts[k] + after);
    assert(is_between(view, before, parts[k], after));
}

} // verus!
