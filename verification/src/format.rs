//! Structured values, names and addresses, as one line of text.

use crate::text::{
    join, join_nonempty, spec_join, spec_join_nonempty, spec_splitn, spec_trim, splitn, texts, trim,
};
use vstd::prelude::*;

verus! {

/// One component of a structured value; empty where there is none.
pub open spec fn component(parts: Seq<Seq<char>>, i: int) -> Seq<char> {
    if 0 <= i < parts.len() {
        spec_trim(parts[i])
    } else {
        Seq::empty()
    }
}

fn get_component(parts: &Vec<String>, i: usize) -> (out: String)
    ensures
        out@ == component(texts(parts@), i as int),
{
    if i < parts.len() {
        assert(texts(parts@)[i as int] == parts@[i as int]@);
        trim(&parts[i])
    } else {
        String::new()
    }
}

/// A list of components cut to `n`: the last is then all that is left, with
/// semicolons between them.
pub open spec fn spec_at_most(parts: Seq<Seq<char>>, n: nat) -> Seq<Seq<char>> {
    if parts.len() <= n || n == 0 {
        parts
    } else {
        parts.take(n - 1).push(spec_join(parts.skip(n - 1), ";"@))
    }
}

/// A list of components cut to `n`.
pub fn at_most(parts: &Vec<String>, n: usize) -> (out: Vec<String>)
    requires
        n >= 1,
    ensures
        texts(out@) == spec_at_most(texts(parts@), n as nat),
{
    let ghost model = texts(parts@);
    let kept: usize = if parts.len() <= n {
        parts.len()
    } else {
        n - 1
    };
    let mut out: Vec<String> = Vec::new();
    let mut rest: Vec<String> = Vec::new();
    let mut i: usize = 0;
    while i < parts.len()
        invariant
            model == texts(parts@),
            kept <= parts.len(),
            i <= parts.len(),
            i <= kept ==> texts(out@) == model.take(i as int) && rest@.len() == 0,
            i > kept ==> texts(out@) == model.take(kept as int) && texts(rest@) == model.subrange(
                kept as int,
                i as int,
            ),
        decreases parts.len() - i,
    {
        let ghost kept_before = out@;
        let ghost rest_before = rest@;
        if i < kept {
            out.push(parts[i].clone());
            assert(texts(out@) =~= texts(kept_before).push(model[i as int]));
            assert(model.take(i + 1) =~= model.take(i as int).push(model[i as int]));
        } else {
            rest.push(parts[i].clone());
            assert(texts(rest@) =~= texts(rest_before).push(model[i as int]));
            assert(texts(rest@) =~= model.subrange(kept as int, i + 1));
        }
        i = i + 1;
    }
    if parts.len() > n {
        let ghost before = out@;
        assert(model.subrange(kept as int, model.len() as int) =~= model.skip(kept as int));
        out.push(join(&rest, ";"));
        assert(texts(out@) =~= texts(before).push(spec_join(model.skip(n - 1), ";"@)));
    } else {
        assert(model.take(model.len() as int) =~= model);
    }
    out
}

/// A name in the order in which it is spoken: prefix, first, middle and last
/// name, as far as they are there, and behind a comma the suffix.
pub open spec fn spec_name_of(p: Seq<Seq<char>>) -> Seq<char> {
    let spoken = spec_join_nonempty(
        seq![component(p, 3), component(p, 1), component(p, 2), component(p, 0)],
        " "@,
    );
    let suffix = component(p, 4);
    if suffix.len() == 0 {
        spoken
    } else {
        spoken + ", "@ + suffix
    }
}

/// The name that its components (last, first, middle, prefix, suffix) make.
pub fn name_of(p: &Vec<String>) -> (out: String)
    ensures
        out@ == spec_name_of(texts(p@)),
{
    let last = get_component(p, 0);
    let first = get_component(p, 1);
    let middle = get_component(p, 2);
    let prefix = get_component(p, 3);
    let suffix = get_component(p, 4);
    let ghost model = texts(p@);
    let spoken: Vec<String> = vec![prefix, first, middle, last];
    assert(texts(spoken@) =~= seq![
        component(model, 3),
        component(model, 1),
        component(model, 2),
        component(model, 0),
    ]);
    let mut out = join_nonempty(&spoken, " ");
    if !suffix.as_str().is_empty() {
        out.append(", ");
        out.append(&suffix);
    }
    out
}

/// The name that a text of up to five components makes.
pub open spec fn spec_format_name(value: Seq<char>) -> Seq<char> {
    spec_name_of(spec_splitn(value, ';', 5))
}

/// Format the structured `N` property (Last;First;Middle;Prefix;Suffix).
pub fn format_name(value: &str) -> (out: String)
    ensures
        out@ == spec_format_name(value@),
{
    name_of(&splitn(value, ';', 5))
}

/// City, region and postal code: `City, Region Code`, as far as they are
/// there.
pub open spec fn city_line(city: Seq<char>, region: Seq<char>, postal: Seq<char>) -> Seq<char> {
    spec_join_nonempty(seq![spec_join_nonempty(seq![city, region], ", "@), postal], " "@)
}

/// A post office box, marked as one.
pub open spec fn marked_po_box(po_box: Seq<char>) -> Seq<char> {
    if po_box.len() == 0 {
        po_box
    } else {
        "P.O. Box "@ + po_box
    }
}

/// An address on one line, with commas between the parts that are there.
pub open spec fn spec_address_of(p: Seq<Seq<char>>) -> Seq<char> {
    spec_join_nonempty(
        seq![
            marked_po_box(component(p, 0)),
            component(p, 1),
            component(p, 2),
            city_line(component(p, 3), component(p, 4), component(p, 5)),
            component(p, 6),
        ],
        ", "@,
    )
}

/// The address that its components (P.O. box, extended, street, city, region,
/// postal code, country) make.
pub fn address_of(p: &Vec<String>) -> (out: String)
    ensures
        out@ == spec_address_of(texts(p@)),
{
    let ghost m = texts(p@);
    let number = get_component(p, 0);
    let extended = get_component(p, 1);
    let street = get_component(p, 2);
    let city = get_component(p, 3);
    let region = get_component(p, 4);
    let postal = get_component(p, 5);
    let country = get_component(p, 6);

    let mut po_box = String::new();
    if !number.as_str().is_empty() {
        po_box.append("P.O. Box ");
        po_box.append(&number);
    }
    assert(po_box@ =~= marked_po_box(component(m, 0)));

    let place: Vec<String> = vec![city, region];
    assert(texts(place@) =~= seq![component(m, 3), component(m, 4)]);
    let coded: Vec<String> = vec![join_nonempty(&place, ", "), postal];
    assert(texts(coded@) =~= seq![
        spec_join_nonempty(seq![component(m, 3), component(m, 4)], ", "@),
        component(m, 5),
    ]);
    let line = join_nonempty(&coded, " ");

    let segments: Vec<String> = vec![po_box, extended, street, line, country];
    assert(texts(segments@) =~= seq![
        marked_po_box(component(m, 0)),
        component(m, 1),
        component(m, 2),
        city_line(component(m, 3), component(m, 4), component(m, 5)),
        component(m, 6),
    ]);
    join_nonempty(&segments, ", ")
}

/// The address that a text of up to seven components makes.
pub open spec fn spec_format_address(value: Seq<char>) -> Seq<char> {
    spec_address_of(spec_splitn(value, ';', 7))
}

/// Format the structured `ADR` property
/// (P.O. Box;Extended;Street;City;Region;PostalCode;Country).
pub fn format_address(value: &str) -> (out: String)
    ensures
        out@ == spec_format_address(value@),
{
    address_of(&splitn(value, ';', 7))
}

} // verus!
