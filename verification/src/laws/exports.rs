//! Laws of what a CSV record holds of a card.

use crate::card::{spec_get_all, PropertyModel};
use crate::csv::csv_rows;
use crate::fields::{
    property_texts, spec_card_field, spec_card_name, spec_card_org, spec_property_text,
};
use crate::laws::contacts::{is_filled, law_get_all_is_filter};
use crate::laws::sequences::{lemma_join_front, lemma_split_first};
use crate::text::{spec_eq_ignore_case, spec_join, spec_nonempty, spec_split};
use vstd::prelude::*;

verus! {

/// The texts of all properties of a card that have a name and mean something,
/// in their order.
pub open spec fn filled_texts(card: Seq<PropertyModel>, name: Seq<char>, address: bool) -> Seq<
    Seq<char>,
>
    decreases card.len(),
{
    if card.len() == 0 {
        Seq::empty()
    } else {
        let before = filled_texts(card.drop_last(), name, address);
        if is_filled(card.last(), name, address) {
            before.push(spec_property_text(card.last(), address))
        } else {
            before
        }
    }
}

proof fn lemma_filled(card: Seq<PropertyModel>, name: Seq<char>, address: bool)
    ensures
        spec_nonempty(property_texts(spec_get_all(card, name), address)) == filled_texts(
            card,
            name,
            address,
        ),
    decreases card.len(),
{
    let all = property_texts(spec_get_all(card, name), address);
    if card.len() == 0 {
        assert(all =~= Seq::<Seq<char>>::empty());
    } else {
        let init = card.drop_last();
        lemma_filled(init, name, address);
        law_get_all_is_filter(init, card.last(), name);
        assert(init.push(card.last()) =~= card);
        let before = property_texts(spec_get_all(init, name), address);
        if spec_eq_ignore_case(card.last().name, name) {
            assert(all =~= before.push(spec_property_text(card.last(), address)));
            assert(all.drop_last() =~= before);
        }
    }
}

/// Each property adds its text in its place, whatever stands before and behind
/// it.
pub proof fn law_filled_concat(
    a: Seq<PropertyModel>,
    b: Seq<PropertyModel>,
    name: Seq<char>,
    address: bool,
)
    ensures
        filled_texts(a + b, name, address) == filled_texts(a, name, address) + filled_texts(
            b,
            name,
            address,
        ),
    decreases b.len(),
{
    if b.len() == 0 {
        assert(a + b =~= a);
    } else {
        law_filled_concat(a, b.drop_last(), name, address);
        assert((a + b).drop_last() =~= a + b.drop_last());
        assert((a + b).last() == b.last());
    }
    assert(filled_texts(a + b, name, address) =~= filled_texts(a, name, address) + filled_texts(
        b,
        name,
        address,
    ));
}

/// The first row of the CSV output names the columns.
pub proof fn law_csv_header(cards: Seq<(Seq<char>, Seq<PropertyModel>)>)
    ensures
        csv_rows(cards).len() == cards.len() + 1,
        csv_rows(cards)[0] == seq![
            "source"@,
            "name"@,
            "organisation"@,
            "title"@,
            "role"@,
            "email"@,
            "phone"@,
            "address"@,
            "birthday"@,
            "anniversary"@,
            "website"@,
            "note"@,
        ],
{
}

/// Each card has its row, behind the header and in its place. The row begins
/// with the name of the file. A column of a kind that a contact can have more
/// of holds all texts of that kind that are not empty, in their order and with
/// a bar between them; any other holds the text of its field.
pub proof fn law_csv_row(cards: Seq<(Seq<char>, Seq<PropertyModel>)>, k: int)
    requires
        0 <= k < cards.len(),
    ensures
        ({
            let row = csv_rows(cards)[k + 1];
            let card = cards[k].1;
            &&& row.len() == 12
            &&& row[0] == cards[k].0
            &&& row[1] == spec_card_name(card)
            &&& row[2] == spec_card_org(card)
            &&& row[3] == spec_card_field(card, "TITLE"@)
            &&& row[4] == spec_card_field(card, "ROLE"@)
            &&& row[5] == spec_join(filled_texts(card, "EMAIL"@, false), " | "@)
            &&& row[6] == spec_join(filled_texts(card, "TEL"@, false), " | "@)
            &&& row[7] == spec_join(filled_texts(card, "ADR"@, true), " | "@)
            &&& row[8] == spec_card_field(card, "BDAY"@)
            &&& row[9] == spec_card_field(card, "ANNIVERSARY"@)
            &&& row[10] == spec_join(filled_texts(card, "URL"@, false), " | "@)
            &&& row[11] == spec_card_field(card, "NOTE"@)
        }),
{
    let card = cards[k].1;
    lemma_filled(card, "EMAIL"@, false);
    lemma_filled(card, "TEL"@, false);
    lemma_filled(card, "ADR"@, true);
    lemma_filled(card, "URL"@, false);
}

/// A space in every place of a list but one.
spec fn space_unless(end: bool) -> Seq<char> {
    if end {
        Seq::empty()
    } else {
        seq![' ']
    }
}

proof fn lemma_bars(values: Seq<Seq<char>>, first: bool)
    requires
        values.len() >= 1,
        forall|k: int| 0 <= k < values.len() ==> !(#[trigger] values[k]).contains('|'),
    ensures
        ({
            let pieces = spec_split(space_unless(first) + spec_join(values, " | "@), '|');
            &&& pieces.len() == values.len()
            &&& forall|k: int|
                0 <= k < values.len() ==> #[trigger] pieces[k] == space_unless(first && k == 0)
                    + values[k] + space_unless(k == values.len() - 1)
        }),
    decreases values.len(),
{
    reveal_strlit(" | ");
    let pre = space_unless(first);
    let v = values[0];
    let s = pre + spec_join(values, " | "@);
    assert(!v.contains('|'));
    if values.len() == 1 {
        assert forall|i: int| 0 <= i < s.len() implies s[i] != '|' by {
            if i >= pre.len() {
                assert(v.contains(v[i - pre.len()]));
            }
        }
        lemma_split_first(s, '|', Seq::empty());
        assert(s =~= pre + v + space_unless(true));
    } else {
        let rest = values.skip(1);
        assert forall|k: int| 0 <= k < rest.len() implies !(#[trigger] rest[k]).contains('|') by {
            assert(rest[k] == values[k + 1]);
        }
        lemma_bars(rest, false);
        lemma_join_front(values, " | "@);
        let head = pre + v + seq![' '];
        let tail = seq![' '] + spec_join(rest, " | "@);
        assert(s =~= head + seq!['|'] + tail);
        assert forall|i: int| 0 <= i < head.len() implies head[i] != '|' by {
            if pre.len() <= i < pre.len() + v.len() {
                assert(v.contains(v[i - pre.len()]));
            }
        }
        lemma_split_first(head, '|', tail);
        let pieces = spec_split(s, '|');
        assert(pieces == seq![head] + spec_split(tail, '|'));
        assert forall|k: int| 0 <= k < values.len() implies #[trigger] pieces[k] == space_unless(
            first && k == 0,
        ) + values[k] + space_unless(k == values.len() - 1) by {
            if k > 0 {
                assert(pieces[k] == spec_split(tail, '|')[k - 1]);
                assert(rest[k - 1] == values[k]);
            }
        }
    }
}

/// Texts with bars between them come apart again at the bars, none lost, where
/// none of them holds a bar itself.
pub proof fn law_values_come_apart(values: Seq<Seq<char>>)
    requires
        values.len() >= 1,
        forall|k: int| 0 <= k < values.len() ==> !(#[trigger] values[k]).contains('|'),
    ensures
        ({
            let pieces = spec_split(spec_join(values, " | "@), '|');
            &&& pieces.len() == values.len()
            &&& forall|k: int|
                0 <= k < values.len() ==> #[trigger] pieces[k] == (if k == 0 {
                    Seq::empty()
                } else {
                    seq![' ']
                }) + values[k] + (if k == values.len() - 1 {
                    Seq::empty()
                } else {
                    seq![' ']
                })
        }),
{
    lemma_bars(values, true);
    assert(space_unless(true) + spec_join(values, " | "@) =~= spec_join(values, " | "@));
}

/// All numbers of a contact are in its record: the column comes apart into
/// exactly those that are not empty, in their order.
pub proof fn law_numbers_read_back(cards: Seq<(Seq<char>, Seq<PropertyModel>)>, k: int)
    requires
        0 <= k < cards.len(),
        filled_texts(cards[k].1, "TEL"@, false).len() >= 1,
        forall|i: int|
            0 <= i < filled_texts(cards[k].1, "TEL"@, false).len() ==> !(#[trigger] filled_texts(
                cards[k].1,
                "TEL"@,
                false,
            )[i]).contains('|'),
    ensures
        ({
            let numbers = filled_texts(cards[k].1, "TEL"@, false);
            let pieces = spec_split(csv_rows(cards)[k + 1][6], '|');
            &&& pieces.len() == numbers.len()
            &&& forall|i: int|
                0 <= i < numbers.len() ==> #[trigger] pieces[i] == (if i == 0 {
                    Seq::empty()
                } else {
                    seq![' ']
                }) + numbers[i] + (if i == numbers.len() - 1 {
                    Seq::empty()
                } else {
                    seq![' ']
                })
        }),
{
    law_csv_row(cards, k);
    law_values_come_apart(filled_texts(cards[k].1, "TEL"@, false));
}

} // verus!
