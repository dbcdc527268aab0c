//! Properties and the cards that they make up.

use crate::text::{eq_ignore_case, spec_eq_ignore_case};
use vstd::prelude::*;

verus! {

/// One line of a card: a name, parameters, and the value as it was written.
#[derive(Debug, Clone)]
pub struct Property {
    pub name: String,
    pub params: Vec<(String, String)>,
    pub value: String,
}

/// The text of a [`Property`].
pub struct PropertyModel {
    pub name: Seq<char>,
    pub params: Seq<(Seq<char>, Seq<char>)>,
    pub value: Seq<char>,
}

/// A contact: its properties in the order in which they were written.
#[derive(Debug, Clone)]
pub struct VCard {
    pub properties: Vec<Property>,
}

/// The text of a list of parameters.
pub open spec fn param_texts(params: Seq<(String, String)>) -> Seq<(Seq<char>, Seq<char>)> {
    params.map_values(|p: (String, String)| (p.0@, p.1@))
}

impl View for Property {
    type V = PropertyModel;

    open spec fn view(&self) -> PropertyModel {
        PropertyModel {
            name: self.name@,
            params: param_texts(self.params@),
            value: self.value@,
        }
    }
}

/// The text of a list of properties.
pub open spec fn property_models(props: Seq<Property>) -> Seq<PropertyModel> {
    props.map_values(|p: Property| p@)
}

impl View for VCard {
    type V = Seq<PropertyModel>;

    open spec fn view(&self) -> Seq<PropertyModel> {
        property_models(self.properties@)
    }
}

/// The value of the first parameter with the given key, in any case.
pub open spec fn spec_param(params: Seq<(Seq<char>, Seq<char>)>, key: Seq<char>) -> Option<
    Seq<char>,
>
    decreases params.len(),
{
    if params.len() == 0 {
        None
    } else if spec_eq_ignore_case(params[0].0, key) {
        Some(params[0].1)
    } else {
        spec_param(params.skip(1), key)
    }
}

/// The first property with the given name, in any case.
pub open spec fn spec_get(card: Seq<PropertyModel>, name: Seq<char>) -> Option<PropertyModel>
    decreases card.len(),
{
    if card.len() == 0 {
        None
    } else if spec_eq_ignore_case(card[0].name, name) {
        Some(card[0])
    } else {
        spec_get(card.skip(1), name)
    }
}

/// The properties with the given name, in any case, in their order.
pub open spec fn spec_get_all(card: Seq<PropertyModel>, name: Seq<char>) -> Seq<PropertyModel>
    decreases card.len(),
{
    if card.len() == 0 {
        Seq::empty()
    } else if spec_eq_ignore_case(card.last().name, name) {
        spec_get_all(card.drop_last(), name).push(card.last())
    } else {
        spec_get_all(card.drop_last(), name)
    }
}

/// The text of a list of borrowed properties.
pub open spec fn borrowed_models(props: Seq<&Property>) -> Seq<PropertyModel> {
    props.map_values(|p: &Property| p@)
}

impl Property {
    /// The value of the first parameter with the given key, in any case.
    pub fn param(&self, key: &str) -> (out: Option<&str>)
        ensures
            match out {
                Some(v) => spec_param(self@.params, key@) == Some(v@),
                None => spec_param(self@.params, key@) is None,
            },
    {
        let ghost model = self@.params;
        let mut i: usize = 0;
        assert(model.skip(0) =~= model);
        while i < self.params.len()
            invariant
                model == self@.params,
                i <= self.params.len(),
                spec_param(model, key@) == spec_param(model.skip(i as int), key@),
            decreases self.params.len() - i,
        {
            let ghost rest = model.skip(i as int);
            assert(rest[0] == (self.params@[i as int].0@, self.params@[i as int].1@));
            if eq_ignore_case(&self.params[i].0, key) {
                return Some(self.params[i].1.as_str());
            }
            assert(rest.skip(1) =~= model.skip(i + 1));
            i = i + 1;
        }
        None
    }

    /// The value of the first `TYPE` parameter.
    pub fn type_param(&self) -> (out: Option<&str>)
        ensures
            match out {
                Some(v) => spec_param(self@.params, "TYPE"@) == Some(v@),
                None => spec_param(self@.params, "TYPE"@) is None,
            },
    {
        self.param("TYPE")
    }
}

impl VCard {
    /// The first property with the given name, in any case.
    pub fn get(&self, name: &str) -> (out: Option<&Property>)
        ensures
            match out {
                Some(p) => spec_get(self@, name@) == Some(p@),
                None => spec_get(self@, name@) is None,
            },
    {
        let ghost model = self@;
        let mut i: usize = 0;
        assert(model.skip(0) =~= model);
        while i < self.properties.len()
            invariant
                model == self@,
                i <= self.properties.len(),
                spec_get(model, name@) == spec_get(model.skip(i as int), name@),
            decreases self.properties.len() - i,
        {
            let ghost rest = model.skip(i as int);
            assert(rest[0] == self.properties@[i as int]@);
            if eq_ignore_case(&self.properties[i].name, name) {
                return Some(&self.properties[i]);
            }
            assert(rest.skip(1) =~= model.skip(i + 1));
            i = i + 1;
        }
        None
    }

    /// The properties with the given name, in any case, in their order.
    pub fn get_all(&self, name: &str) -> (out: Vec<&Property>)
        ensures
            borrowed_models(out@) == spec_get_all(self@, name@),
    {
        let ghost model = self@;
        let mut out: Vec<&Property> = Vec::new();
        let mut i: usize = 0;
        while i < self.properties.len()
            invariant
                model == self@,
                i <= self.properties.len(),
                borrowed_models(out@) == spec_get_all(model.take(i as int), name@),
            decreases self.properties.len() - i,
        {
            let ghost next = model.take(i + 1);
            let ghost before = out@;
            assert(next.drop_last() =~= model.take(i as int));
            assert(next.last() == self.properties@[i as int]@);
            if eq_ignore_case(&self.properties[i].name, name) {
                out.push(&self.properties[i]);
                assert(borrowed_models(out@) =~= borrowed_models(before).push(next.last()));
            }
            i = i + 1;
        }
        assert(model.take(model.len() as int) =~= model);
        out
    }
}

} // verus!
