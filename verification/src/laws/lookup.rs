//! Laws of looking up properties and parameters.

use crate::card::{spec_get, spec_get_all, spec_param, PropertyModel};
use crate::text::spec_eq_ignore_case;
use vstd::prelude::*;

verus! {

/// The properties with a name in two cards, one behind the other, are those
/// of the first and then those of the second.
pub proof fn law_get_all_concat(a: Seq<PropertyModel>, b: Seq<PropertyModel>, name: Seq<char>)
    ensures
        spec_get_all(a + b, name) == spec_get_all(a, name) + spec_get_all(b, name),
    decreases b.len(),
{
    let all = a + b;
    if b.len() == 0 {
        assert(all =~= a);
        assert(spec_get_all(a, name) + spec_get_all(b, name) =~= spec_get_all(a, name));
    } else {
        assert(all.drop_last() =~= a + b.drop_last());
        assert(all.last() == b.last());
        law_get_all_concat(a, b.drop_last(), name);
        if spec_eq_ignore_case(b.last().name, name) {
            assert((spec_get_all(a, name) + spec_get_all(b.drop_last(), name)).push(b.last())
                =~= spec_get_all(a, name) + spec_get_all(b.drop_last(), name).push(b.last()));
        }
    }
}

/// The property that is found under a name is the first of all that are, and
/// one is found exactly if there are any.
pub proof fn law_get_is_first(card: Seq<PropertyModel>, name: Seq<char>)
    ensures
        spec_get(card, name) is Some <==> spec_get_all(card, name).len() > 0,
        spec_get(card, name) matches Some(p) ==> spec_get_all(card, name)[0] == p,
    decreases card.len(),
{
    if card.len() > 0 {
        let one = seq![card[0]];
        let rest = card.skip(1);
        law_get_is_first(rest, name);
        law_get_all_concat(one, rest, name);
        assert(card =~= one + rest);
        assert(one.drop_last() =~= Seq::<PropertyModel>::empty());
        assert(spec_get_all(one.drop_last(), name) =~= Seq::<PropertyModel>::empty());
        if spec_eq_ignore_case(card[0].name, name) {
            assert(spec_get_all(one, name) =~= one);
        } else {
            assert(spec_get_all(one, name) =~= Seq::<PropertyModel>::empty());
        }
    }
}

/// All properties that are found under a name have that name, in any case.
pub proof fn law_get_all_has_name(card: Seq<PropertyModel>, name: Seq<char>)
    ensures
        forall|i: int|
            0 <= i < spec_get_all(card, name).len() ==> spec_eq_ignore_case(
                (#[trigger] spec_get_all(card, name)[i]).name,
                name,
            ),
    decreases card.len(),
{
    if card.len() > 0 {
        law_get_all_has_name(card.drop_last(), name);
        let found = spec_get_all(card, name);
        let before = spec_get_all(card.drop_last(), name);
        assert forall|i: int| 0 <= i < found.len() implies spec_eq_ignore_case(
            (#[trigger] found[i]).name,
            name,
        ) by {
            if i < before.len() {
                assert(found[i] == before[i]);
            }
        }
    }
}

/// The case of the letters in a name makes no difference to what is found.
pub proof fn law_names_ignore_case(card: Seq<PropertyModel>, name: Seq<char>, other: Seq<char>)
    requires
        spec_eq_ignore_case(name, other),
    ensures
        spec_get(card, name) == spec_get(card, other),
        spec_get_all(card, name) == spec_get_all(card, other),
    decreases card.len(),
{
    if card.len() > 0 {
        law_names_ignore_case(card.skip(1), name, other);
        law_names_ignore_case(card.drop_last(), name, other);
    }
}

/// Nor does the case of the letters in the key of a parameter.
pub proof fn law_keys_ignore_case(
    params: Seq<(Seq<char>, Seq<char>)>,
    key: Seq<char>,
    other: Seq<char>,
)
    requires
        spec_eq_ignore_case(key, other),
    ensures
        spec_param(params, key) == spec_param(params, other),
    decreases params.len(),
{
    if params.len() > 0 {
        law_keys_ignore_case(params.skip(1), key, other);
    }
}

} // verus!
