//! What is shown of a card: its fields as text.

use crate::card::{spec_get, spec_get_all, Property, PropertyModel, VCard};
use crate::card::borrowed_models;
use crate::decode::{components, decode_value, spec_components, spec_decode_value};
use crate::format::{
    address_of, at_most, name_of, spec_address_of, spec_at_most, spec_name_of,
};
use crate::text::{join_nonempty, spec_join_nonempty, spec_trim_each, texts, trim_each};
use vstd::prelude::*;

verus! {

/// The text of the first property with a name; empty if there is none.
pub open spec fn spec_card_field(card: Seq<PropertyModel>, name: Seq<char>) -> Seq<char> {
    match spec_get(card, name) {
        Some(p) => spec_decode_value(p),
        None => Seq::empty(),
    }
}

/// Extract a single flat string for a given property name from a card.
pub fn card_field(card: &VCard, name: &str) -> (out: String)
    ensures
        out@ == spec_card_field(card@, name@),
{
    match card.get(name) {
        Some(p) => decode_value(p),
        None => String::new(),
    }
}

/// The name of a contact: the formatted name, or the structured one where
/// the first is missing or empty; empty if there is neither.
pub open spec fn spec_card_name(card: Seq<PropertyModel>) -> Seq<char> {
    let formatted = spec_card_field(card, "FN"@);
    if formatted.len() > 0 {
        formatted
    } else {
        match spec_get(card, "N"@) {
            Some(p) => spec_name_of(spec_at_most(spec_components(p), 5)),
            None => Seq::empty(),
        }
    }
}

/// The name of a contact.
pub fn card_name(card: &VCard) -> (out: String)
    ensures
        out@ == spec_card_name(card@),
{
    let formatted = card_field(card, "FN");
    if !formatted.as_str().is_empty() {
        return formatted;
    }
    match card.get("N") {
        Some(p) => name_of(&at_most(&components(p), 5)),
        None => String::new(),
    }
}

/// The organisation with its units, with dots between them; empty if there
/// is none.
pub open spec fn spec_card_org(card: Seq<PropertyModel>) -> Seq<char> {
    match spec_get(card, "ORG"@) {
        Some(p) => spec_join_nonempty(spec_trim_each(spec_components(p)), " · "@),
        None => Seq::empty(),
    }
}

/// The organisation with its units.
pub fn card_org(card: &VCard) -> (out: String)
    ensures
        out@ == spec_card_org(card@),
{
    match card.get("ORG") {
        Some(p) => join_nonempty(&trim_each(&components(p)), " · "),
        None => String::new(),
    }
}

/// The text of a property that may be an address.
pub open spec fn spec_property_text(p: PropertyModel, address: bool) -> Seq<char> {
    if address {
        spec_address_of(spec_at_most(spec_components(p), 7))
    } else {
        spec_decode_value(p)
    }
}

/// The text of a property that may be an address.
pub fn property_text(p: &Property, address: bool) -> (out: String)
    ensures
        out@ == spec_property_text(p@, address),
{
    if address {
        address_of(&at_most(&components(p), 7))
    } else {
        decode_value(p)
    }
}

/// The texts of a list of properties.
pub open spec fn property_texts(props: Seq<PropertyModel>, address: bool) -> Seq<Seq<char>> {
    props.map_values(|p: PropertyModel| spec_property_text(p, address))
}

/// The texts of all properties with a name, in their order.
pub fn card_texts(card: &VCard, name: &str, address: bool) -> (out: Vec<String>)
    ensures
        texts(out@) == property_texts(spec_get_all(card@, name@), address),
{
    let props = card.get_all(name);
    let ghost found = spec_get_all(card@, name@);
    let ghost model = property_texts(found, address);
    let mut out: Vec<String> = Vec::new();
    let mut i: usize = 0;
    while i < props.len()
        invariant
            borrowed_models(props@) == found,
            model == property_texts(found, address),
            i <= props.len(),
            texts(out@) == model.take(i as int),
        decreases props.len() - i,
    {
        let ghost before = out@;
        assert(borrowed_models(props@)[i as int] == props@[i as int]@);
        out.push(property_text(props[i], address));
        assert(texts(out@) =~= texts(before).push(model[i as int]));
        assert(model.take(i + 1) =~= model.take(i as int).push(model[i as int]));
        i = i + 1;
    }
    assert(model.take(model.len() as int) =~= model);
    out
}

} // verus!
