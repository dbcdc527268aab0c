//! Cards as CSV records (RFC 4180).

use crate::card::{spec_get_all, PropertyModel, VCard};
use crate::fields::{
    card_field, card_name, card_org, card_texts, property_texts, spec_card_field, spec_card_name,
    spec_card_org,
};
use crate::text::{
    join, join_nonempty, replace, spec_join, spec_join_nonempty, spec_replace, spec_write_lines,
    texts, write_lines,
};
use vstd::prelude::*;

verus! {

/// A field between double quotes, with each double quote inside it doubled.
pub open spec fn spec_csv_escape(s: Seq<char>) -> Seq<char> {
    "\""@ + spec_replace(s, "\""@, "\"\""@) + "\""@
}

/// Wrap a field value in double-quotes, escaping inner double-quotes per RFC
/// 4180.
pub fn csv_escape(s: &str) -> (out: String)
    ensures
        out@ == spec_csv_escape(s@),
{
    proof {
        reveal_strlit("\"");
    }
    let mut out = "\"".to_owned();
    out.append(&replace(s, "\"", "\"\""));
    out.append("\"");
    out
}

/// Each text of a list as a field.
pub open spec fn escape_each(fields: Seq<Seq<char>>) -> Seq<Seq<char>> {
    fields.map_values(|f: Seq<char>| spec_csv_escape(f))
}

/// A record: its fields with commas between them.
pub open spec fn spec_record(fields: Seq<Seq<char>>) -> Seq<char> {
    spec_join(escape_each(fields), ","@)
}

/// A record: its fields with commas between them.
pub fn record(fields: &Vec<String>) -> (out: String)
    ensures
        out@ == spec_record(texts(fields@)),
{
    let ghost model = escape_each(texts(fields@));
    let mut parts: Vec<String> = Vec::new();
    let mut i: usize = 0;
    while i < fields.len()
        invariant
            model == escape_each(texts(fields@)),
            i <= fields.len(),
            texts(parts@) == model.take(i as int),
        decreases fields.len() - i,
    {
        let ghost before = parts@;
        parts.push(csv_escape(&fields[i]));
        assert(texts(parts@) =~= texts(before).push(model[i as int]));
        assert(model.take(i + 1) =~= model.take(i as int).push(model[i as int]));
        i = i + 1;
    }
    assert(model.take(model.len() as int) =~= model);
    join(&parts, ",")
}

/// The names of the columns.
pub open spec fn spec_columns() -> Seq<Seq<char>> {
    seq![
        "source"@,
        "name"@,
        "organisation"@,
        "title"@,
        "role"@,
        "email"@,
        "phone"@,
        "address"@,
        "birthday"@,
        "anniversary"@,
        "website"@,
        "note"@,
    ]
}

fn columns() -> (out: Vec<String>)
    ensures
        texts(out@) == spec_columns(),
{
    let out: Vec<String> = vec![
        "source".to_owned(),
        "name".to_owned(),
        "organisation".to_owned(),
        "title".to_owned(),
        "role".to_owned(),
        "email".to_owned(),
        "phone".to_owned(),
        "address".to_owned(),
        "birthday".to_owned(),
        "anniversary".to_owned(),
        "website".to_owned(),
        "note".to_owned(),
    ];
    assert(texts(out@) =~= spec_columns());
    out
}

/// The values of all properties with a name in one field.
pub open spec fn all_values(card: Seq<PropertyModel>, name: Seq<char>, address: bool) -> Seq<char> {
    spec_join_nonempty(property_texts(spec_get_all(card, name), address), " | "@)
}

fn values_of(card: &VCard, name: &str, address: bool) -> (out: String)
    ensures
        out@ == all_values(card@, name@, address),
{
    join_nonempty(&card_texts(card, name, address), " | ")
}

/// The fields of a card, behind the name of the file that it came from.
pub open spec fn card_fields(source: Seq<char>, card: Seq<PropertyModel>) -> Seq<Seq<char>> {
    seq![
        source,
        spec_card_name(card),
        spec_card_org(card),
        spec_card_field(card, "TITLE"@),
        spec_card_field(card, "ROLE"@),
        all_values(card, "EMAIL"@, false),
        all_values(card, "TEL"@, false),
        all_values(card, "ADR"@, true),
        spec_card_field(card, "BDAY"@),
        spec_card_field(card, "ANNIVERSARY"@),
        all_values(card, "URL"@, false),
        spec_card_field(card, "NOTE"@),
    ]
}

fn fields_of(source: &str, card: &VCard) -> (out: Vec<String>)
    ensures
        texts(out@) == card_fields(source@, card@),
{
    let out: Vec<String> = vec![
        source.to_owned(),
        card_name(card),
        card_org(card),
        card_field(card, "TITLE"),
        card_field(card, "ROLE"),
        values_of(card, "EMAIL", false),
        values_of(card, "TEL", false),
        values_of(card, "ADR", true),
        card_field(card, "BDAY"),
        card_field(card, "ANNIVERSARY"),
        values_of(card, "URL", false),
        card_field(card, "NOTE"),
    ];
    assert(texts(out@) =~= card_fields(source@, card@));
    out
}

/// The text of a list of cards, each with the name of its file.
pub open spec fn labelled_models(cards: Seq<(String, VCard)>) -> Seq<
    (Seq<char>, Seq<PropertyModel>),
> {
    cards.map_values(|c: (String, VCard)| (c.0@, c.1@))
}

/// The rows of fields of a list of cards, below the names of the columns.
pub open spec fn csv_rows(cards: Seq<(Seq<char>, Seq<PropertyModel>)>) -> Seq<Seq<Seq<char>>> {
    seq![spec_columns()] + cards.map_values(
        |c: (Seq<char>, Seq<PropertyModel>)| card_fields(c.0, c.1),
    )
}

/// A record for each row of fields.
pub open spec fn records(rows: Seq<Seq<Seq<char>>>) -> Seq<Seq<char>> {
    rows.map_values(|r: Seq<Seq<char>>| spec_record(r))
}

/// The CSV text for a list of cards: the record of the names of the columns,
/// and then one record for each card, each ended by a CRLF.
pub open spec fn spec_csv(cards: Seq<(Seq<char>, Seq<PropertyModel>)>) -> Seq<char> {
    spec_write_lines(records(csv_rows(cards)), "\r\n"@)
}

/// The CSV text for a list of cards.
pub fn output_csv(cards: &[(String, VCard)]) -> (out: String)
    ensures
        out@ == spec_csv(labelled_models(cards@)),
{
    write_lines(&card_records(cards), "\r\n")
}

fn card_records(cards: &[(String, VCard)]) -> (out: Vec<String>)
    ensures
        texts(out@) == records(csv_rows(labelled_models(cards@))),
{
    let ghost model = records(csv_rows(labelled_models(cards@)));
    let mut out: Vec<String> = Vec::new();
    out.push(record(&columns()));
    assert(texts(out@) =~= model.take(1));
    let mut i: usize = 0;
    while i < cards.len()
        invariant
            model == records(csv_rows(labelled_models(cards@))),
            i <= cards.len(),
            texts(out@) == model.take(i + 1),
        decreases cards.len() - i,
    {
        let ghost before = out@;
        assert(csv_rows(labelled_models(cards@))[i + 1] == card_fields(
            cards@[i as int].0@,
            cards@[i as int].1@,
        ));
        out.push(record(&fields_of(&cards[i].0, &cards[i].1)));
        assert(texts(out@) =~= texts(before).push(model[i + 1]));
        assert(model.take(i + 2) =~= model.take(i + 1).push(model[i + 1]));
        i = i + 1;
    }
    assert(model.take(model.len() as int) =~= model);
    out
}

} // verus!
