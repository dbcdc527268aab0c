//! Laws of names, addresses and organisations, told component by component.

use crate::card::PropertyModel;
use crate::decode::{
    spec_components, spec_decode_quoted_printable, spec_decode_value, spec_escaped_text,
    spec_fix_mojibake, spec_unescape, split_components,
};
use crate::fields::{
    spec_card_field, spec_card_name, spec_card_org, spec_property_text,
};
use crate::format::{city_line, marked_po_box, spec_address_of, spec_at_most, spec_name_of};
use crate::laws::contacts::{is_first_named, lacks, law_get_finds_first};
use crate::laws::parsed::{is_first_with, law_param_is_first};
use crate::parse::{is_begin, is_end, spec_unfold};
use crate::laws::folding::law_unfold_concat;
use crate::laws::texts::law_trim_cr;
use crate::table::spec_from_card;
use crate::text::{
    spec_eq_ignore_case, spec_join, spec_join_nonempty, spec_nonempty, spec_replace, spec_trim,
};
use vstd::prelude::*;

verus! {

/// A component without the white space around it; empty where there is none.
pub open spec fn trimmed(parts: Seq<Seq<char>>, i: int) -> Seq<char> {
    if 0 <= i < parts.len() {
        spec_trim(parts[i])
    } else {
        Seq::empty()
    }
}

/// Two texts with a separator between them where neither is empty.
pub open spec fn linked(a: Seq<char>, sep: Seq<char>, b: Seq<char>) -> Seq<char> {
    if a.len() == 0 {
        b
    } else if b.len() == 0 {
        a
    } else {
        a + sep + b
    }
}

/// To join without the empty texts is to link them from the left.
pub proof fn law_linked(parts: Seq<Seq<char>>, text: Seq<char>, sep: Seq<char>)
    ensures
        spec_join_nonempty(Seq::empty(), sep).len() == 0,
        text.len() == 0 || spec_nonempty(parts).len() > 0 ==> spec_join_nonempty(
            parts.push(text),
            sep,
        ) == (if text.len() == 0 {
            spec_join_nonempty(parts, sep)
        } else {
            spec_join_nonempty(parts, sep) + sep + text
        }),
        text.len() > 0 && spec_nonempty(parts).len() == 0 ==> spec_join_nonempty(
            parts.push(text),
            sep,
        ) == text,
{
    assert(parts.push(text).drop_last() =~= parts);
    let kept = spec_nonempty(parts);
    if text.len() > 0 {
        assert(kept.push(text).drop_last() =~= kept);
    }
}

proof fn lemma_none_kept(parts: Seq<Seq<char>>)
    ensures
        spec_nonempty(parts).len() == 0 <==> crate::laws::names::all_empty(parts),
    decreases parts.len(),
{
    if parts.len() > 0 {
        let init = parts.drop_last();
        lemma_none_kept(init);
        if crate::laws::names::all_empty(parts) {
            assert(parts[parts.len() - 1].len() == 0);
            assert forall|i: int| 0 <= i < init.len() implies (#[trigger] init[i]).len() == 0 by {
                assert(init[i] == parts[i]);
            }
        }
        if spec_nonempty(parts).len() == 0 {
            assert forall|i: int| 0 <= i < parts.len() implies (#[trigger] parts[i]).len() == 0 by {
                if i < init.len() {
                    assert(init[i] == parts[i]);
                }
            }
        }
    }
}

proof fn lemma_linked(parts: Seq<Seq<char>>, text: Seq<char>, sep: Seq<char>)
    ensures
        spec_join_nonempty(parts.push(text), sep) == linked(
            spec_join_nonempty(parts, sep),
            sep,
            text,
        ),
{
    law_linked(parts, text, sep);
    lemma_none_kept(parts);
    crate::laws::names::law_joined_empty(parts, sep);
    if spec_nonempty(parts).len() == 0 {
        assert(spec_join_nonempty(parts, sep) =~= Seq::<char>::empty());
    }
}

/// A name is spoken as prefix, first, middle and last name, each without the
/// white space around it and as far as it is there, with spaces between them;
/// and behind a comma stands the suffix, if there is one.
pub proof fn law_name_spoken(parts: Seq<Seq<char>>)
    ensures
        ({
            let spoken = linked(
                linked(
                    linked(trimmed(parts, 3), " "@, trimmed(parts, 1)),
                    " "@,
                    trimmed(parts, 2),
                ),
                " "@,
                trimmed(parts, 0),
            );
            spec_name_of(parts) == if trimmed(parts, 4).len() == 0 {
                spoken
            } else {
                spoken + ", "@ + trimmed(parts, 4)
            }
        }),
{
    let a = trimmed(parts, 3);
    let b = trimmed(parts, 1);
    let c = trimmed(parts, 2);
    let d = trimmed(parts, 0);
    let none = Seq::<Seq<char>>::empty();
    law_linked(none, a, " "@);
    lemma_linked(none, a, " "@);
    lemma_linked(none.push(a), b, " "@);
    lemma_linked(none.push(a).push(b), c, " "@);
    lemma_linked(none.push(a).push(b).push(c), d, " "@);
    assert(seq![a, b, c, d] =~= none.push(a).push(b).push(c).push(d));
}

/// An address has, with commas between them and as far as they are there, the
/// post office box, marked as one, the extended address, the street, the city
/// with region and postal code, and the country.
pub proof fn law_address_line(parts: Seq<Seq<char>>)
    ensures
        ({
            let number = trimmed(parts, 0);
            let po_box = if number.len() == 0 {
                number
            } else {
                "P.O. Box "@ + number
            };
            let city = linked(
                linked(trimmed(parts, 3), ", "@, trimmed(parts, 4)),
                " "@,
                trimmed(parts, 5),
            );
            spec_address_of(parts) == linked(
                linked(
                    linked(
                        linked(po_box, ", "@, trimmed(parts, 1)),
                        ", "@,
                        trimmed(parts, 2),
                    ),
                    ", "@,
                    city,
                ),
                ", "@,
                trimmed(parts, 6),
            )
        }),
{
    let none = Seq::<Seq<char>>::empty();
    let a = marked_po_box(trimmed(parts, 0));
    let b = trimmed(parts, 1);
    let c = trimmed(parts, 2);
    let (x, y, z) = (trimmed(parts, 3), trimmed(parts, 4), trimmed(parts, 5));
    let d = city_line(x, y, z);
    let e = trimmed(parts, 6);
    law_linked(none, a, ", "@);
    law_linked(none, x, ", "@);
    law_linked(none, x, " "@);
    lemma_linked(none, x, ", "@);
    lemma_linked(none.push(x), y, ", "@);
    assert(seq![x, y] =~= none.push(x).push(y));
    let place = spec_join_nonempty(seq![x, y], ", "@);
    lemma_linked(none, place, " "@);
    lemma_linked(none.push(place), z, " "@);
    assert(seq![place, z] =~= none.push(place).push(z));
    lemma_linked(none, a, ", "@);
    lemma_linked(none.push(a), b, ", "@);
    lemma_linked(none.push(a).push(b), c, ", "@);
    lemma_linked(none.push(a).push(b).push(c), d, ", "@);
    lemma_linked(none.push(a).push(b).push(c).push(d), e, ", "@);
    assert(seq![a, b, c, d, e] =~= none.push(a).push(b).push(c).push(d).push(e));
}

/// A list that is not too long is left as it is. Of any other the first stay,
/// and the last holds all that is left, with semicolons between.
pub proof fn law_at_most(parts: Seq<Seq<char>>, n: nat)
    requires
        n >= 1,
    ensures
        parts.len() <= n ==> spec_at_most(parts, n) == parts,
        parts.len() > n ==> {
            &&& spec_at_most(parts, n).len() == n
            &&& forall|i: int| 0 <= i < n - 1 ==> #[trigger] spec_at_most(parts, n)[i] == parts[i]
            &&& spec_at_most(parts, n)[n - 1] == spec_join(parts.skip(n - 1), seq![';'])
        },
{
    reveal_strlit(";");
    assert(";"@ =~= seq![';']);
}

/// The text of a value that still has its escapes is read by the first
/// `ENCODING` among the parameters, wherever it stands.
pub proof fn law_escaped_text(p: PropertyModel)
    ensures
        spec_decode_value(p) == spec_unescape(spec_escaped_text(p)),
        forall|i: int|
            #[trigger] is_first_with(p.params, i, "ENCODING"@) && spec_eq_ignore_case(
                p.params[i].1,
                "QUOTED-PRINTABLE"@,
            ) ==> spec_escaped_text(p) == spec_decode_quoted_printable(p.value),
        forall|i: int|
            #[trigger] is_first_with(p.params, i, "ENCODING"@) && !spec_eq_ignore_case(
                p.params[i].1,
                "QUOTED-PRINTABLE"@,
            ) ==> spec_escaped_text(p) == spec_fix_mojibake(p.value),
        (forall|j: int|
            0 <= j < p.params.len() ==> !spec_eq_ignore_case(
                (#[trigger] p.params[j]).0,
                "ENCODING"@,
            )) ==> spec_escaped_text(p) == spec_fix_mojibake(p.value),
{
    law_param_is_first(p.params, "ENCODING"@);
}

/// The components of a value are its pieces, each with its escapes taken out.
pub proof fn law_components_unescaped(p: PropertyModel)
    ensures
        spec_components(p).len() == split_components(spec_escaped_text(p)).len(),
        forall|i: int|
            0 <= i < spec_components(p).len() ==> #[trigger] spec_components(p)[i] == spec_unescape(
                split_components(spec_escaped_text(p))[i],
            ),
{
}

/// A contact without a formatted name is called by the first structured one,
/// of up to five components.
pub proof fn law_structured_name(card: Seq<PropertyModel>, i: int)
    requires
        spec_card_field(card, "FN"@).len() == 0,
        is_first_named(card, i, "N"@),
    ensures
        spec_card_name(card) == spec_name_of(spec_at_most(spec_components(card[i]), 5)),
{
    law_get_finds_first(card, "N"@);
}

/// The text of a property is what it means, and that of an address is put
/// together from up to seven components.
pub proof fn law_property_text(p: PropertyModel)
    ensures
        spec_property_text(p, false) == spec_decode_value(p),
        spec_property_text(p, true) == spec_address_of(spec_at_most(spec_components(p), 7)),
{
}

/// The organisation is that of the first property that names one: all its
/// units that are not blank, with dots between them, and in the table the
/// first unit alone.
pub proof fn law_organisation(card: Seq<PropertyModel>)
    ensures
        forall|i: int|
            #[trigger] is_first_named(card, i, "ORG"@) ==> spec_card_org(card) == spec_join(
                spec_nonempty(spec_components(card[i]).map_values(|u: Seq<char>| spec_trim(u))),
                " · "@,
            ),
        forall|i: int|
            #[trigger] is_first_named(card, i, "ORG"@) ==> spec_from_card(card).org == spec_trim(
                spec_components(card[i])[0],
            ),
        lacks(card, "ORG"@) ==> spec_card_org(card).len() == 0 && spec_from_card(card).org.len()
            == 0,
        spec_from_card(card).name == spec_card_name(card),
{
    law_get_finds_first(card, "ORG"@);
    assert forall|i: int| #[trigger] is_first_named(card, i, "ORG"@) implies spec_card_org(card)
        == spec_join(
        spec_nonempty(spec_components(card[i]).map_values(|u: Seq<char>| spec_trim(u))),
        " · "@,
    ) by {
        assert(crate::text::spec_trim_each(spec_components(card[i]))
            =~= spec_components(card[i]).map_values(|u: Seq<char>| spec_trim(u)));
    }
}

/// A line opens or closes a card exactly if it reads `BEGIN:VCARD` or
/// `END:VCARD` in any case, with nothing but carriage returns behind it.
pub proof fn law_frame_lines(line: Seq<char>, crs: Seq<char>)
    requires
        line.len() > 0 ==> line.last() != '\r',
        forall|i: int| 0 <= i < crs.len() ==> crs[i] == '\r',
    ensures
        is_begin(line + crs) <==> spec_eq_ignore_case(line, "BEGIN:VCARD"@),
        is_end(line + crs) <==> spec_eq_ignore_case(line, "END:VCARD"@),
{
    law_trim_cr(line, crs);
}

/// A CRLF that folds nothing comes out as a line feed.
pub proof fn law_line_break_kept(a: Seq<char>, b: Seq<char>)
    requires
        b.len() > 0 ==> b[0] != ' ' && b[0] != '\t',
    ensures
        spec_unfold(a + seq!['\r', '\n'] + b) == spec_unfold(a) + seq!['\n'] + spec_unfold(b),
{
    let crlf = seq!['\r', '\n'];
    law_unfold_concat(a + crlf, b);
    law_unfold_concat(a, crlf);
    reveal_strlit("\r\n");
    reveal_strlit("\n");
    reveal_with_fuel(spec_replace, 2);
    assert(crlf.take(2) =~= "\r\n"@);
    assert(crlf.skip(2) =~= Seq::<char>::empty());
    assert(spec_replace(crlf, "\r\n"@, "\n"@) =~= seq!['\n']);
    reveal_with_fuel(crate::parse::drop_folds, 3);
    assert(seq!['\n'].skip(1) =~= Seq::<char>::empty());
    assert(spec_unfold(crlf) =~= seq!['\n']);
}

} // verus!
