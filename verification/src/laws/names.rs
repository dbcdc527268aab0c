//! Laws of names, addresses and cut texts.

use crate::card::{spec_get, PropertyModel};
use crate::decode::{spec_components, spec_decode_value, spec_escaped_text};
use crate::fields::{spec_card_field, spec_card_name, spec_card_org, spec_property_text};
use crate::format::{
    city_line, component, marked_po_box, spec_address_of, spec_at_most, spec_format_address,
    spec_format_name, spec_name_of,
};
use crate::laws::sequences::{lemma_join_front, lemma_splitn_join};
use crate::laws::values::{has_escaped_semicolon, law_components_plain};
use crate::table::{main_org, spec_truncate};
use crate::text::{
    lemma_find, lemma_split_len, spec_find, spec_join, spec_join_nonempty, spec_nonempty,
    spec_split, spec_splitn, spec_trim, spec_trim_each,
};
use vstd::prelude::*;

verus! {

/// A structured name is put together from its components, each without the
/// white space around it. Only the last may hold a semicolon.
pub proof fn law_name_of_components(parts: Seq<Seq<char>>)
    requires
        parts.len() == 5,
        forall|i: int| 0 <= i < 4 ==> !(#[trigger] parts[i]).contains(';'),
    ensures
        ({
            let spoken = spec_join_nonempty(
                seq![
                    spec_trim(parts[3]),
                    spec_trim(parts[1]),
                    spec_trim(parts[2]),
                    spec_trim(parts[0]),
                ],
                " "@,
            );
            let suffix = spec_trim(parts[4]);
            spec_format_name(spec_join(parts, seq![';'])) == if suffix.len() == 0 {
                spoken
            } else {
                spoken + ", "@ + suffix
            }
        }),
{
    lemma_splitn_join(parts, ';');
}

/// A structured address is put together from its components, each without
/// the white space around it. Only the last may hold a semicolon.
pub proof fn law_address_of_components(parts: Seq<Seq<char>>)
    requires
        parts.len() == 7,
        forall|i: int| 0 <= i < 6 ==> !(#[trigger] parts[i]).contains(';'),
    ensures
        spec_format_address(spec_join(parts, seq![';'])) == spec_join_nonempty(
            seq![
                marked_po_box(spec_trim(parts[0])),
                spec_trim(parts[1]),
                spec_trim(parts[2]),
                city_line(spec_trim(parts[3]), spec_trim(parts[4]), spec_trim(parts[5])),
                spec_trim(parts[6]),
            ],
            ", "@,
        ),
{
    lemma_splitn_join(parts, ';');
}

proof fn lemma_join_split(s: Seq<char>, c: char)
    ensures
        spec_join(spec_split(s, c), seq![c]) == s,
    decreases s.len(),
{
    let i = spec_find(s, c);
    lemma_find(s, c);
    if i < s.len() {
        let rest = s.skip(i + 1);
        let parts = spec_split(s, c);
        lemma_join_split(rest, c);
        lemma_split_len(rest, c);
        lemma_join_front(parts, seq![c]);
        assert(parts.skip(1) =~= spec_split(rest, c));
        assert(s =~= s.take(i) + seq![c] + rest);
    }
}

/// To split a text and cut the list of pieces is to split it into no more
/// pieces than that.
pub proof fn law_split_at_most(s: Seq<char>, n: nat)
    requires
        n >= 1,
    ensures
        spec_at_most(spec_split(s, ';'), n) == spec_splitn(s, ';', n),
    decreases n,
{
    reveal_strlit(";");
    assert(";"@ =~= seq![';']);
    let i = spec_find(s, ';');
    let parts = spec_split(s, ';');
    lemma_find(s, ';');
    lemma_join_split(s, ';');
    if i < s.len() {
        let rest = s.skip(i + 1);
        let more = spec_split(rest, ';');
        lemma_split_len(rest, ';');
        assert(parts.skip(1) =~= more);
        if n == 1 {
            assert(parts.skip(0) =~= parts);
            assert(spec_at_most(parts, 1) =~= seq![s]);
        } else {
            law_split_at_most(rest, (n - 1) as nat);
            if parts.len() > n {
                assert(parts.skip(n - 1) =~= more.skip(n - 2));
                assert(parts.take(n - 1) =~= seq![parts[0]] + more.take(n - 2));
            }
            assert(spec_at_most(parts, n) =~= seq![parts[0]] + spec_at_most(more, (n - 1) as nat));
        }
    }
}

/// The components of a structured value in which no semicolon is escaped make
/// the name and the address that its decoded text makes.
pub proof fn law_plain_structures(p: PropertyModel)
    requires
        !has_escaped_semicolon(spec_escaped_text(p)),
    ensures
        spec_name_of(spec_at_most(spec_components(p), 5)) == spec_format_name(
            spec_decode_value(p),
        ),
        spec_address_of(spec_at_most(spec_components(p), 7)) == spec_format_address(
            spec_decode_value(p),
        ),
        spec_property_text(p, true) == spec_format_address(spec_decode_value(p)),
{
    law_components_plain(p);
    law_split_at_most(spec_decode_value(p), 5);
    law_split_at_most(spec_decode_value(p), 7);
}

/// Whether the first property with a name, if there is one, has no escaped
/// semicolon in its value.
pub open spec fn is_plain_field(card: Seq<PropertyModel>, name: Seq<char>) -> bool {
    spec_get(card, name) matches Some(p) ==> !has_escaped_semicolon(spec_escaped_text(p))
}

/// The name and the organisation of a card whose structured values have no
/// escaped semicolon are those of the decoded texts.
pub proof fn law_plain_card(card: Seq<PropertyModel>)
    ensures
        is_plain_field(card, "N"@) && spec_card_field(card, "FN"@).len() == 0 ==> spec_card_name(
            card,
        ) == spec_format_name(spec_card_field(card, "N"@)),
        is_plain_field(card, "ORG"@) ==> spec_card_org(card) == spec_join_nonempty(
            spec_trim_each(spec_split(spec_card_field(card, "ORG"@), ';')),
            " · "@,
        ),
        is_plain_field(card, "ORG"@) ==> main_org(card) == spec_trim(
            spec_split(spec_card_field(card, "ORG"@), ';')[0],
        ),
{
    let none = Seq::<char>::empty();
    let nothing = spec_split(none, ';');
    assert(nothing =~= seq![none]);
    match spec_get(card, "N"@) {
        Some(p) => {
            if is_plain_field(card, "N"@) {
                law_plain_structures(p);
            }
        },
        None => {
            let p = spec_splitn(none, ';', 5);
            assert(p =~= seq![none]);
            assert forall|i: int| 0 <= i < 5 implies (#[trigger] component(p, i)).len() == 0 by {}
            law_name_empty(p);
            assert(spec_format_name(none) =~= none);
        },
    }
    match spec_get(card, "ORG"@) {
        Some(p) => {
            if is_plain_field(card, "ORG"@) {
                law_components_plain(p);
            }
        },
        None => {
            let trimmed = spec_trim_each(nothing);
            assert(trimmed =~= seq![none]);
            assert(all_empty(trimmed));
            law_joined_empty(trimmed, " · "@);
            assert(spec_join_nonempty(trimmed, " · "@) =~= none);
        },
    }
}

/// Whether all texts of a list are empty.
pub open spec fn all_empty(parts: Seq<Seq<char>>) -> bool {
    forall|i: int| 0 <= i < parts.len() ==> (#[trigger] parts[i]).len() == 0
}

proof fn lemma_nonempty_members(parts: Seq<Seq<char>>)
    ensures
        all_empty(parts) <==> spec_nonempty(parts).len() == 0,
        forall|i: int|
            0 <= i < spec_nonempty(parts).len() ==> (#[trigger] spec_nonempty(parts)[i]).len() > 0,
    decreases parts.len(),
{
    if parts.len() > 0 {
        let init = parts.drop_last();
        lemma_nonempty_members(init);
        if all_empty(parts) {
            assert forall|i: int| 0 <= i < init.len() implies (#[trigger] init[i]).len() == 0 by {
                assert(init[i] == parts[i]);
            }
            assert(parts[parts.len() - 1].len() == 0);
        }
        if spec_nonempty(parts).len() == 0 {
            assert forall|i: int| 0 <= i < parts.len() implies (#[trigger] parts[i]).len() == 0 by {
                if i < init.len() {
                    assert(init[i] == parts[i]);
                }
            }
        }
        let kept = spec_nonempty(init);
        assert forall|i: int| 0 <= i < spec_nonempty(parts).len() implies (
        #[trigger] spec_nonempty(parts)[i]).len() > 0 by {
            if i < kept.len() {
                assert(spec_nonempty(parts)[i] == kept[i]);
            }
        }
    }
}

/// Texts joined without the empty ones give nothing exactly if all of them
/// are empty.
pub proof fn law_joined_empty(parts: Seq<Seq<char>>, sep: Seq<char>)
    ensures
        spec_join_nonempty(parts, sep).len() == 0 <==> all_empty(parts),
{
    lemma_nonempty_members(parts);
    let kept = spec_nonempty(parts);
    if kept.len() == 1 {
        assert(kept[0].len() > 0);
    } else if kept.len() > 1 {
        assert(kept[kept.len() - 1].len() > 0);
    }
}

/// A name comes out empty exactly if it has no component that is more than
/// white space.
pub proof fn law_name_empty(p: Seq<Seq<char>>)
    ensures
        spec_name_of(p).len() == 0 <==> forall|i: int|
            0 <= i < 5 ==> (#[trigger] component(p, i)).len() == 0,
{
    let spoken = seq![component(p, 3), component(p, 1), component(p, 2), component(p, 0)];
    law_joined_empty(spoken, " "@);
    if all_empty(spoken) {
        assert(spoken[0].len() == 0 && spoken[1].len() == 0 && spoken[2].len() == 0
            && spoken[3].len() == 0);
    }
}

/// An address comes out empty exactly if it has no component that is more than
/// white space.
pub proof fn law_address_empty(p: Seq<Seq<char>>)
    ensures
        spec_address_of(p).len() == 0 <==> forall|i: int|
            0 <= i < 7 ==> (#[trigger] component(p, i)).len() == 0,
{
    let place = seq![component(p, 3), component(p, 4)];
    let coded = seq![spec_join_nonempty(place, ", "@), component(p, 5)];
    let segments = seq![
        marked_po_box(component(p, 0)),
        component(p, 1),
        component(p, 2),
        city_line(component(p, 3), component(p, 4), component(p, 5)),
        component(p, 6),
    ];
    law_joined_empty(place, ", "@);
    law_joined_empty(coded, " "@);
    law_joined_empty(segments, ", "@);
    if all_empty(segments) {
        assert(segments[0].len() == 0 && segments[1].len() == 0 && segments[2].len() == 0
            && segments[3].len() == 0 && segments[4].len() == 0);
        assert(coded[0].len() == 0 && coded[1].len() == 0);
        assert(place[0].len() == 0 && place[1].len() == 0);
    }
}

/// A text that fits is not cut. One that does not fit is cut to exactly the
/// width: its beginning, and an ellipsis in the last place if there is one.
pub proof fn law_truncate(s: Seq<char>, max: nat)
    ensures
        spec_truncate(s, max).len() <= max,
        s.len() <= max ==> spec_truncate(s, max) == s,
        s.len() > max ==> {
            &&& spec_truncate(s, max).len() == max
            &&& max >= 1 ==> {
                &&& spec_truncate(s, max).last() == '…'
                &&& spec_truncate(s, max).drop_last() == s.take(max - 1)
            }
        },
{
    reveal_strlit("…");
    if s.len() > max >= 1 {
        assert(spec_truncate(s, max).drop_last() =~= s.take(max - 1));
    }
}

} // verus!
