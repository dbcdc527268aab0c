//! Laws of the CSV output: it reads back as what was written.

use crate::card::PropertyModel;
use crate::csv::{csv_rows, escape_each, records, spec_csv, spec_csv_escape, spec_record};
use crate::laws::sequences::lemma_join_front;
use crate::text::{spec_replace, spec_write_lines};
use vstd::prelude::*;

verus! {

/// The rest of a quoted field, behind its opening quote, and what follows the
/// closing quote. Two quotes in a row stand for one.
pub open spec fn read_quoted(s: Seq<char>) -> Option<(Seq<char>, Seq<char>)>
    decreases s.len(),
{
    if s.len() == 0 {
        None
    } else if s[0] != '"' {
        match read_quoted(s.skip(1)) {
            Some((field, rest)) => Some((seq![s[0]] + field, rest)),
            None => None,
        }
    } else if s.len() > 1 && s[1] == '"' {
        match read_quoted(s.skip(2)) {
            Some((field, rest)) => Some((seq!['"'] + field, rest)),
            None => None,
        }
    } else {
        Some((Seq::empty(), s.skip(1)))
    }
}

/// A quoted field, and what follows it.
pub open spec fn read_field(s: Seq<char>) -> Option<(Seq<char>, Seq<char>)> {
    if s.len() > 0 && s[0] == '"' {
        read_quoted(s.skip(1))
    } else {
        None
    }
}

/// A record of quoted fields with commas between them, and what follows it.
pub open spec fn read_record(s: Seq<char>) -> Option<(Seq<Seq<char>>, Seq<char>)>
    decreases s.len(),
{
    match read_field(s) {
        None => None,
        Some((field, rest)) => if rest.len() > 0 && rest[0] == ',' && rest.len() <= s.len() {
            match read_record(rest.skip(1)) {
                None => None,
                Some((more, end)) => Some((seq![field] + more, end)),
            }
        } else {
            Some((seq![field], rest))
        },
    }
}

/// The records of a text, each ended by a CRLF.
pub open spec fn read_records(s: Seq<char>) -> Option<Seq<Seq<Seq<char>>>>
    decreases s.len(),
{
    if s.len() == 0 {
        Some(Seq::empty())
    } else {
        match read_record(s) {
            None => None,
            Some((row, rest)) => if rest.len() > 1 && rest[0] == '\r' && rest[1] == '\n'
                && rest.len() <= s.len() {
                match read_records(rest.skip(2)) {
                    None => None,
                    Some(more) => Some(seq![row] + more),
                }
            } else {
                None
            },
        }
    }
}

proof fn lemma_quoted(f: Seq<char>, rest: Seq<char>)
    requires
        rest.len() > 0 ==> rest[0] != '"',
    ensures
        read_quoted(spec_replace(f, "\""@, "\"\""@) + seq!['"'] + rest) == Some((f, rest)),
    decreases f.len(),
{
    reveal_strlit("\"");
    reveal_strlit("\"\"");
    let q = "\""@;
    let qq = "\"\""@;
    let body = spec_replace(f, q, qq);
    let s = body + seq!['"'] + rest;
    if f.len() == 0 {
        assert(s.skip(1) =~= rest);
        assert(s[0] == '"');
        assert(s.len() > 1 ==> s[1] == rest[0]);
        assert(read_quoted(s) == Some((Seq::<char>::empty(), rest)));
        assert(f =~= Seq::<char>::empty());
    } else {
        let tail = f.skip(1);
        let t = spec_replace(tail, q, qq) + seq!['"'] + rest;
        lemma_quoted(tail, rest);
        assert(f =~= seq![f[0]] + tail);
        if f[0] == '"' {
            assert(f.take(1) =~= q);
            assert(body == qq + spec_replace(tail, q, qq));
            assert(s[0] == '"' && s[1] == '"');
            assert(s.skip(2) =~= t);
        } else {
            assert(f.take(1)[0] != q[0]);
            assert(body == seq![f[0]] + spec_replace(tail, q, qq));
            assert(s[0] == f[0]);
            assert(s.skip(1) =~= t);
        }
    }
}

/// A field reads back as the text that was escaped, whatever follows it other
/// than a quote.
pub proof fn law_field_reads_back(field: Seq<char>, rest: Seq<char>)
    requires
        rest.len() > 0 ==> rest[0] != '"',
    ensures
        read_field(spec_csv_escape(field) + rest) == Some((field, rest)),
{
    reveal_strlit("\"");
    let s = spec_csv_escape(field) + rest;
    assert(s.skip(1) =~= spec_replace(field, "\""@, "\"\""@) + seq!['"'] + rest);
    assert(s[0] == '"');
    lemma_quoted(field, rest);
}

/// A record reads back as its fields, whatever follows it other than a quote
/// or a comma.
pub proof fn law_record_reads_back(fields: Seq<Seq<char>>, rest: Seq<char>)
    requires
        fields.len() >= 1,
        rest.len() > 0 ==> rest[0] != '"' && rest[0] != ',',
    ensures
        read_record(spec_record(fields) + rest) == Some((fields, rest)),
    decreases fields.len(),
{
    reveal_strlit(",");
    reveal_strlit("\"");
    let escaped = escape_each(fields);
    let first = spec_csv_escape(fields[0]);
    let s = spec_record(fields) + rest;
    assert(escaped[0] == first);
    if fields.len() == 1 {
        law_field_reads_back(fields[0], rest);
        assert(s == first + rest);
        assert(fields =~= seq![fields[0]]);
    } else {
        let more = fields.skip(1);
        let follow = ","@ + (spec_record(more) + rest);
        lemma_join_front(escaped, ","@);
        assert(escaped.skip(1) =~= escape_each(more));
        assert(s =~= first + follow);
        assert(follow[0] == ',');
        law_field_reads_back(fields[0], follow);
        assert(follow.skip(1) =~= spec_record(more) + rest);
        law_record_reads_back(more, rest);
        assert(fields =~= seq![fields[0]] + more);
    }
}

/// The printed records of a table read back as the table.
pub proof fn law_records_read_back(rows: Seq<Seq<Seq<char>>>)
    requires
        forall|i: int| 0 <= i < rows.len() ==> (#[trigger] rows[i]).len() >= 1,
    ensures
        read_records(spec_write_lines(records(rows), "\r\n"@)) == Some(rows),
    decreases rows.len(),
{
    reveal_strlit("\r\n");
    let ending = "\r\n"@;
    if rows.len() == 0 {
        assert(rows =~= Seq::<Seq<Seq<char>>>::empty());
    } else {
        let more = rows.skip(1);
        let rest = ending + spec_write_lines(records(more), ending);
        assert forall|i: int| 0 <= i < more.len() implies (#[trigger] more[i]).len() >= 1 by {
            assert(more[i] == rows[i + 1]);
        }
        assert(records(rows).skip(1) =~= records(more));
        assert(records(rows)[0] == spec_record(rows[0]));
        assert(spec_write_lines(records(rows), ending) =~= spec_record(rows[0]) + rest);
        law_record_reads_back(rows[0], rest);
        assert(rest.skip(2) =~= spec_write_lines(records(more), ending));
        law_records_read_back(more);
        assert(rows =~= seq![rows[0]] + more);
    }
}

/// The CSV output for a list of cards reads back as the names of the columns
/// and the fields of each card.
pub proof fn law_csv_output_reads_back(cards: Seq<(Seq<char>, Seq<PropertyModel>)>)
    ensures
        read_records(spec_csv(cards)) == Some(csv_rows(cards)),
        csv_rows(cards).len() == cards.len() + 1,
        forall|i: int| 0 <= i < csv_rows(cards).len() ==> (#[trigger] csv_rows(cards)[i]).len() == 12,
{
    law_records_read_back(csv_rows(cards));
}

} // verus!
