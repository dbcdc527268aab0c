//! Laws of what a contact is called and where it can be reached.

use crate::card::{spec_get, spec_get_all, PropertyModel};
use crate::decode::spec_decode_value;
use crate::fields::{
    property_texts, spec_card_field, spec_card_name, spec_property_text,
};
use crate::laws::lookup::law_get_all_concat;
use crate::table::{first_nonempty, spec_from_card};
use crate::text::spec_eq_ignore_case;
use vstd::prelude::*;

verus! {

/// Whether a property stands in a place and is the first with its name.
pub open spec fn is_first_named(card: Seq<PropertyModel>, i: int, name: Seq<char>) -> bool {
    &&& 0 <= i < card.len()
    &&& spec_eq_ignore_case(card[i].name, name)
    &&& forall|j: int| 0 <= j < i ==> !spec_eq_ignore_case((#[trigger] card[j]).name, name)
}

/// Whether no property of a card has a name.
pub open spec fn lacks(card: Seq<PropertyModel>, name: Seq<char>) -> bool {
    forall|j: int| 0 <= j < card.len() ==> !spec_eq_ignore_case((#[trigger] card[j]).name, name)
}

/// What is found under a name is the first property that has it, whatever
/// stands before and behind it; and nothing exactly if none has it.
pub proof fn law_get_finds_first(card: Seq<PropertyModel>, name: Seq<char>)
    ensures
        forall|i: int| #[trigger] is_first_named(card, i, name) ==> spec_get(card, name) == Some(card[i]),
        lacks(card, name) <==> spec_get(card, name) is None,
    decreases card.len(),
{
    if card.len() > 0 {
        let rest = card.skip(1);
        law_get_finds_first(rest, name);
        assert forall|i: int| #[trigger] is_first_named(card, i, name) implies spec_get(card, name)
            == Some(card[i]) by {
            if i > 0 {
                assert(!spec_eq_ignore_case(card[0].name, name));
                assert(rest[i - 1] == card[i]);
                assert forall|j: int| 0 <= j < i - 1 implies !spec_eq_ignore_case(
                    (#[trigger] rest[j]).name,
                    name,
                ) by {
                    assert(rest[j] == card[j + 1]);
                }
                assert(is_first_named(rest, i - 1, name));
            }
        }
        if lacks(card, name) {
            assert(!spec_eq_ignore_case(card[0].name, name));
            assert forall|j: int| 0 <= j < rest.len() implies !spec_eq_ignore_case(
                (#[trigger] rest[j]).name,
                name,
            ) by {
                assert(rest[j] == card[j + 1]);
            }
        }
        if spec_get(card, name) is None {
            assert forall|j: int| 0 <= j < card.len() implies !spec_eq_ignore_case(
                (#[trigger] card[j]).name,
                name,
            ) by {
                if j > 0 {
                    assert(rest[j - 1] == card[j]);
                }
            }
        }
    }
}

/// All that is found under a name is exactly what has it: of one property that
/// property or nothing, and of a longer card what its parts give in turn.
pub proof fn law_get_all_is_filter(a: Seq<PropertyModel>, p: PropertyModel, name: Seq<char>)
    ensures
        spec_get_all(Seq::empty(), name) == Seq::<PropertyModel>::empty(),
        spec_eq_ignore_case(p.name, name) ==> spec_get_all(a.push(p), name) == spec_get_all(
            a,
            name,
        ).push(p),
        !spec_eq_ignore_case(p.name, name) ==> spec_get_all(a.push(p), name) == spec_get_all(a, name),
{
    assert(a.push(p).drop_last() =~= a);
}

/// The text of a field is what the first property with its name means, and it
/// is empty where there is none.
pub proof fn law_field_is_first(card: Seq<PropertyModel>, name: Seq<char>)
    ensures
        forall|i: int|
            #[trigger] is_first_named(card, i, name) ==> spec_card_field(card, name)
                == spec_decode_value(card[i]),
        lacks(card, name) ==> spec_card_field(card, name).len() == 0,
{
    law_get_finds_first(card, name);
}

/// A contact with a formatted name is called just that, whatever other
/// properties the card has, a structured name among them.
pub proof fn law_formatted_name_wins(card: Seq<PropertyModel>, i: int)
    requires
        is_first_named(card, i, "FN"@),
        spec_decode_value(card[i]).len() > 0,
    ensures
        spec_card_name(card) == spec_decode_value(card[i]),
        spec_from_card(card).name == spec_decode_value(card[i]),
{
    law_field_is_first(card, "FN"@);
}

/// The name of a contact rests on the first `FN` and the first `N` alone, and
/// on the second only where the first is missing or empty.
pub proof fn law_name_sources(a: Seq<PropertyModel>, b: Seq<PropertyModel>)
    requires
        spec_get(a, "FN"@) == spec_get(b, "FN"@),
        spec_card_field(a, "FN"@).len() > 0 || spec_get(a, "N"@) == spec_get(b, "N"@),
    ensures
        spec_card_name(a) == spec_card_name(b),
{
}

/// A contact without any name has an empty one.
pub proof fn law_no_name(card: Seq<PropertyModel>)
    requires
        lacks(card, "FN"@),
        lacks(card, "N"@),
    ensures
        spec_card_name(card).len() == 0,
{
    law_get_finds_first(card, "FN"@);
    law_get_finds_first(card, "N"@);
}

/// The title is shown where there is one, whatever the role; else the role.
pub proof fn law_title_wins(card: Seq<PropertyModel>)
    ensures
        spec_card_field(card, "TITLE"@).len() > 0 ==> spec_from_card(card).title == spec_card_field(
            card,
            "TITLE"@,
        ),
        spec_card_field(card, "TITLE"@).len() == 0 ==> spec_from_card(card).title == spec_card_field(
            card,
            "ROLE"@,
        ),
{
}

/// Whether a property with a name means more than nothing.
pub open spec fn is_filled(p: PropertyModel, name: Seq<char>, address: bool) -> bool {
    spec_eq_ignore_case(p.name, name) && spec_property_text(p, address).len() > 0
}

/// Whether a property stands in a place and is the first filled one with its
/// name.
pub open spec fn is_first_filled(card: Seq<PropertyModel>, i: int, name: Seq<char>) -> bool {
    &&& 0 <= i < card.len()
    &&& is_filled(card[i], name, false)
    &&& forall|j: int| 0 <= j < i ==> !is_filled(#[trigger] card[j], name, false)
}

proof fn lemma_first_nonempty_concat(a: Seq<Seq<char>>, b: Seq<Seq<char>>)
    ensures
        first_nonempty(a + b) == (if first_nonempty(a).len() > 0 {
            first_nonempty(a)
        } else {
            first_nonempty(b)
        }),
    decreases a.len(),
{
    if a.len() == 0 {
        assert(a + b =~= b);
    } else {
        assert((a + b).skip(1) =~= a.skip(1) + b);
        lemma_first_nonempty_concat(a.skip(1), b);
    }
}

proof fn lemma_first_filled(card: Seq<PropertyModel>, name: Seq<char>)
    ensures
        ({
            let found = first_nonempty(property_texts(spec_get_all(card, name), false));
            &&& forall|i: int|
                #[trigger] is_first_filled(card, i, name) ==> found == spec_decode_value(card[i])
            &&& (forall|j: int| 0 <= j < card.len() ==> !is_filled(#[trigger] card[j], name, false))
                ==> found.len() == 0
        }),
    decreases card.len(),
{
    if card.len() > 0 {
        let rest = card.skip(1);
        let one = seq![card[0]];
        lemma_first_filled(rest, name);
        law_get_all_concat(one, rest, name);
        law_get_all_is_filter(Seq::empty(), card[0], name);
        assert(Seq::<PropertyModel>::empty().push(card[0]) =~= one);
        assert(card =~= one + rest);
        let a = property_texts(spec_get_all(one, name), false);
        let b = property_texts(spec_get_all(rest, name), false);
        assert(property_texts(spec_get_all(card, name), false) =~= a + b);
        lemma_first_nonempty_concat(a, b);
        if spec_eq_ignore_case(card[0].name, name) {
            assert(a =~= seq![spec_decode_value(card[0])]);
            assert(first_nonempty(a.skip(1)).len() == 0);
        } else {
            assert(a =~= Seq::<Seq<char>>::empty());
        }
        assert forall|i: int| #[trigger] is_first_filled(card, i, name) implies first_nonempty(a + b)
            == spec_decode_value(card[i]) by {
            if i > 0 {
                assert(!is_filled(card[0], name, false));
                assert(rest[i - 1] == card[i]);
                assert forall|j: int| 0 <= j < i - 1 implies !is_filled(
                    #[trigger] rest[j],
                    name,
                    false,
                ) by {
                    assert(rest[j] == card[j + 1]);
                }
                assert(is_first_filled(rest, i - 1, name));
            }
        }
        if forall|j: int| 0 <= j < card.len() ==> !is_filled(#[trigger] card[j], name, false) {
            assert(!is_filled(card[0], name, false));
            assert forall|j: int| 0 <= j < rest.len() implies !is_filled(
                #[trigger] rest[j],
                name,
                false,
            ) by {
                assert(rest[j] == card[j + 1]);
            }
        }
    }
}

/// The address and the number in a row of the table are the first that are
/// not empty, and they are empty where there is none.
pub proof fn law_row_shows_first(card: Seq<PropertyModel>)
    ensures
        forall|i: int|
            #[trigger] is_first_filled(card, i, "EMAIL"@) ==> spec_from_card(card).email
                == spec_decode_value(card[i]),
        forall|i: int|
            #[trigger] is_first_filled(card, i, "TEL"@) ==> spec_from_card(card).phone
                == spec_decode_value(card[i]),
        (forall|j: int| 0 <= j < card.len() ==> !is_filled(#[trigger] card[j], "EMAIL"@, false))
            ==> spec_from_card(card).email.len() == 0,
        (forall|j: int| 0 <= j < card.len() ==> !is_filled(#[trigger] card[j], "TEL"@, false))
            ==> spec_from_card(card).phone.len() == 0,
{
    lemma_first_filled(card, "EMAIL"@);
    lemma_first_filled(card, "TEL"@);
}

} // verus!
