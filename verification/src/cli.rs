//! What the program does with its arguments and with the files it has read.

use crate::card::{PropertyModel, VCard};
use crate::csv::{labelled_models, output_csv, spec_csv};
use crate::parse::{card_models, parse_vcards, spec_parse_vcards};
use crate::show::{card_view, line, line_of, spec_card_view};
use crate::style::{layouts, lines_painted, render_all, Line, LineLayout, Style};
use crate::table::{
    plural, plural_ending, row_models, spec_from_card, spec_table, table, RowModel, TableRow,
};
use crate::text::{
    chars_of, decimal, eq_ignore_case, same, spec_decimal, spec_eq_ignore_case, spec_write_lines,
    texts, write_lines,
};
use vstd::prelude::*;

verus! {

/// What the arguments ask for.
#[derive(Debug, Clone)]
pub enum Command {
    /// To be told how the program is used.
    Usage,
    /// Something, but there is no file or directory among the arguments.
    MissingPath,
    /// The contacts of a file or a directory, as CSV if `csv` is set.
    View { csv: bool, path: String },
}

/// The meaning of a [`Command`].
pub enum CommandModel {
    Usage,
    MissingPath,
    View { csv: bool, path: Seq<char> },
}

impl View for Command {
    type V = CommandModel;

    open spec fn view(&self) -> CommandModel {
        match self {
            Command::Usage => CommandModel::Usage,
            Command::MissingPath => CommandModel::MissingPath,
            Command::View { csv, path } => CommandModel::View { csv: *csv, path: path@ },
        }
    }
}

/// Whether an argument is a flag.
pub open spec fn is_flag(arg: Seq<char>) -> bool {
    arg.len() > 0 && arg[0] == '-'
}

/// The first argument that is no flag.
pub open spec fn first_path(args: Seq<Seq<char>>) -> Option<Seq<char>>
    decreases args.len(),
{
    if args.len() == 0 {
        None
    } else if is_flag(args[0]) {
        first_path(args.skip(1))
    } else {
        Some(args[0])
    }
}

/// What a list of arguments asks for; the first is the program's own name.
pub open spec fn spec_parse_args(args: Seq<Seq<char>>) -> CommandModel {
    if args.len() < 2 || args.contains("-h"@) || args.contains("--help"@) {
        CommandModel::Usage
    } else {
        match first_path(args.skip(1)) {
            Some(path) => CommandModel::View { csv: args.contains("--csv"@), path },
            None => CommandModel::MissingPath,
        }
    }
}

fn has_arg(args: &[String], wanted: &str) -> (out: bool)
    ensures
        out == texts(args@).contains(wanted@),
{
    let ghost model = texts(args@);
    let mut i: usize = 0;
    while i < args.len()
        invariant
            model == texts(args@),
            i <= args.len(),
            forall|j: int| 0 <= j < i ==> #[trigger] model[j] != wanted@,
        decreases args.len() - i,
    {
        assert(model[i as int] == args@[i as int]@);
        if same(&args[i], wanted) {
            return true;
        }
        i = i + 1;
    }
    false
}

/// What a list of arguments asks for.
pub fn parse_args(args: &[String]) -> (out: Command)
    ensures
        out@ == spec_parse_args(texts(args@)),
{
    if args.len() < 2 || has_arg(args, "-h") || has_arg(args, "--help") {
        return Command::Usage;
    }
    let csv = has_arg(args, "--csv");
    let ghost model = texts(args@);
    let mut i: usize = 1;
    while i < args.len()
        invariant
            model == texts(args@),
            1 <= i <= args.len(),
            args.len() >= 2,
            !model.contains("-h"@),
            !model.contains("--help"@),
            csv == model.contains("--csv"@),
            first_path(model.skip(1)) == first_path(model.skip(i as int)),
        decreases args.len() - i,
    {
        assert(model.skip(i as int)[0] == args@[i as int]@);
        let chars = chars_of(&args[i]);
        if chars.len() == 0 || chars[0] != '-' {
            return Command::View { csv, path: args[i].clone() };
        }
        assert(model.skip(i as int).skip(1) =~= model.skip(i + 1));
        i = i + 1;
    }
    Command::MissingPath
}

/// Whether a file name extension is that of a contact file.
pub open spec fn spec_is_card_extension(ext: Seq<char>) -> bool {
    spec_eq_ignore_case(ext, "vcf"@) || spec_eq_ignore_case(ext, "vcard"@)
}

/// Whether a file name extension is that of a contact file.
pub fn is_card_extension(ext: &str) -> (out: bool)
    ensures
        out == spec_is_card_extension(ext@),
{
    eq_ignore_case(ext, "vcf") || eq_ignore_case(ext, "vcard")
}

/// The names and contents of a list of files.
pub open spec fn source_texts(sources: Seq<(String, String)>) -> Seq<(Seq<char>, Seq<char>)> {
    sources.map_values(|s: (String, String)| (s.0@, s.1@))
}

/// The same label before each card.
pub open spec fn label_each(label: Seq<char>, cards: Seq<Seq<PropertyModel>>) -> Seq<
    (Seq<char>, Seq<PropertyModel>),
> {
    cards.map_values(|c: Seq<PropertyModel>| (label, c))
}

/// The cards of a list of files, each with the name of its file.
pub open spec fn spec_collect(sources: Seq<(Seq<char>, Seq<char>)>) -> Seq<
    (Seq<char>, Seq<PropertyModel>),
>
    decreases sources.len(),
{
    if sources.len() == 0 {
        Seq::empty()
    } else {
        spec_collect(sources.drop_last()) + label_each(
            sources.last().0,
            spec_parse_vcards(sources.last().1),
        )
    }
}

fn add_labelled(out: &mut Vec<(String, VCard)>, label: &str, cards: Vec<VCard>)
    ensures
        labelled_models(final(out)@) == labelled_models(old(out)@) + label_each(
            label@,
            card_models(cards@),
        ),
{
    let ghost before = labelled_models(out@);
    let ghost model = label_each(label@, card_models(cards@));
    let ghost all = cards@;
    assert(before + model.take(0) =~= before);
    for card in it: cards
        invariant
            it.seq() == all,
            model == label_each(label@, card_models(all)),
            labelled_models(out@) == before + model.take(it.index()),
    {
        let ghost so_far = out@;
        let ghost i = it.index();
        out.push((label.to_owned(), card));
        assert(labelled_models(out@) =~= labelled_models(so_far).push(model[i]));
        assert(model.take(i + 1) =~= model.take(i).push(model[i]));
        assert(labelled_models(out@) =~= before + model.take(i + 1));
    }
    assert(model.take(model.len() as int) =~= model);
}

/// The cards of a list of files, each with the name of its file.
pub fn collect_cards(sources: &[(String, String)]) -> (out: Vec<(String, VCard)>)
    ensures
        labelled_models(out@) == spec_collect(source_texts(sources@)),
{
    let ghost model = source_texts(sources@);
    let mut out: Vec<(String, VCard)> = Vec::new();
    let mut i: usize = 0;
    assert(labelled_models(out@) =~= Seq::<(Seq<char>, Seq<PropertyModel>)>::empty());
    while i < sources.len()
        invariant
            model == source_texts(sources@),
            i <= sources.len(),
            labelled_models(out@) == spec_collect(model.take(i as int)),
        decreases sources.len() - i,
    {
        let ghost next = model.take(i + 1);
        assert(next.drop_last() =~= model.take(i as int));
        assert(next.last() == (sources@[i as int].0@, sources@[i as int].1@));
        add_labelled(&mut out, &sources[i].0, parse_vcards(&sources[i].1));
        i = i + 1;
    }
    assert(model.take(model.len() as int) =~= model);
    out
}

/// The labels of a list of cards.
pub open spec fn labels(cards: Seq<(Seq<char>, Seq<PropertyModel>)>) -> Seq<Seq<char>> {
    cards.map_values(|c: (Seq<char>, Seq<PropertyModel>)| c.0)
}

/// The number of different files that cards came from.
pub fn count_files(cards: &[(String, VCard)]) -> (out: usize)
    ensures
        out == labels(labelled_models(cards@)).to_set().len(),
{
    let ghost model = labels(labelled_models(cards@));
    let mut n: usize = 0;
    let mut i: usize = 0;
    assert(model.take(0).to_set() =~= Set::<Seq<char>>::empty());
    while i < cards.len()
        invariant
            model == labels(labelled_models(cards@)),
            i <= cards.len(),
            n <= i,
            model.take(i as int).to_set().finite(),
            n == model.take(i as int).to_set().len(),
        decreases cards.len() - i,
    {
        let ghost seen = model.take(i as int);
        let mut known = false;
        let mut j: usize = i;
        while j > 0 && !known
            invariant
                model == labels(labelled_models(cards@)),
                i < cards.len(),
                j <= i,
                seen == model.take(i as int),
                known ==> seen.contains(model[i as int]),
                !known ==> forall|k: int| j <= k < i ==> #[trigger] model[k] != model[i as int],
            decreases j,
        {
            j = j - 1;
            assert(model[j as int] == cards@[j as int].0@);
            assert(model[i as int] == cards@[i as int].0@);
            if cards[j].0 == cards[i].0 {
                known = true;
                assert(seen[j as int] == model[i as int]);
            }
        }
        assert(model.take(i + 1).to_set() =~= seen.to_set().insert(model[i as int])) by {
            let next = model.take(i + 1);
            assert forall|x: Seq<char>| next.contains(x) implies seen.to_set().insert(
                model[i as int],
            ).contains(x) by {
                let k = choose|k: int| 0 <= k < next.len() && next[k] == x;
                if k < i {
                    assert(seen[k] == x);
                }
            }
            assert forall|x: Seq<char>| seen.contains(x) implies next.contains(x) by {
                let k = choose|k: int| 0 <= k < seen.len() && seen[k] == x;
                assert(next[k] == x);
            }
            assert(next[i as int] == model[i as int]);
        }
        if !known {
            assert(!seen.contains(model[i as int]));
            n = n + 1;
        }
        i = i + 1;
    }
    assert(model.take(model.len() as int) =~= model);
    n
}

/// The line above the table of a directory.
pub open spec fn summary(cards: nat, files: nat) -> LineLayout {
    line_of(
        "  "@ + spec_decimal(cards) + " vCard"@ + plural(cards) + " from "@ + spec_decimal(files)
            + " file"@ + plural(files),
        Style::Bold,
    )
}

/// The line above the table of a directory.
pub fn summary_line(cards: usize, files: usize) -> (out: Line)
    ensures
        out@ == summary(cards as nat, files as nat),
{
    let mut text = "  ".to_owned();
    text.append(&decimal(cards));
    text.append(" vCard");
    text.append(&plural_ending(cards));
    text.append(" from ");
    text.append(&decimal(files));
    text.append(" file");
    text.append(&plural_ending(files));
    line(text, Style::Bold)
}

/// The rows of a list of cards in a table.
pub open spec fn labelled_rows(cards: Seq<(Seq<char>, Seq<PropertyModel>)>) -> Seq<RowModel> {
    cards.map_values(|c: (Seq<char>, Seq<PropertyModel>)| spec_from_card(c.1))
}

/// The view of a directory: how much there is, an empty line, and a table.
pub open spec fn directory_view(cards: Seq<(Seq<char>, Seq<PropertyModel>)>) -> Seq<LineLayout> {
    seq![
        summary(cards.len(), labels(cards).to_set().len()),
        line_of(""@, Style::Plain),
    ] + spec_table(labelled_rows(cards))
}

fn view_directory(cards: &[(String, VCard)]) -> (out: Vec<Line>)
    ensures
        layouts(out@) == directory_view(labelled_models(cards@)),
{
    let ghost model = labelled_rows(labelled_models(cards@));
    let mut rows: Vec<TableRow> = Vec::new();
    let mut i: usize = 0;
    while i < cards.len()
        invariant
            model == labelled_rows(labelled_models(cards@)),
            i <= cards.len(),
            row_models(rows@) == model.take(i as int),
        decreases cards.len() - i,
    {
        let ghost before = rows@;
        rows.push(TableRow::from_card(&cards[i].1));
        assert(row_models(rows@) =~= row_models(before).push(model[i as int]));
        assert(model.take(i + 1) =~= model.take(i as int).push(model[i as int]));
        i = i + 1;
    }
    assert(model.take(model.len() as int) =~= model);
    let mut out: Vec<Line> = vec![
        summary_line(cards.len(), count_files(cards)),
        line("".to_owned(), Style::Plain),
    ];
    assert(layouts(out@) =~= seq![
        summary(cards@.len(), labels(labelled_models(cards@)).to_set().len()),
        line_of(""@, Style::Plain),
    ]);
    add_lines(&mut out, table(&rows));
    out
}

/// An empty line before every card but the first.
pub open spec fn gap(index: nat) -> Seq<LineLayout> {
    if index > 0 {
        seq![line_of(""@, Style::Plain)]
    } else {
        Seq::empty()
    }
}

/// The view of the first so many of a list of cards: one below the other,
/// with an empty line between them.
pub open spec fn file_view(cards: Seq<(Seq<char>, Seq<PropertyModel>)>, n: nat) -> Seq<LineLayout>
    decreases n,
{
    if n == 0 {
        Seq::empty()
    } else {
        let i = (n - 1) as nat;
        file_view(cards, i) + gap(i) + spec_card_view(cards[i as int].1, i, cards.len())
    }
}

fn add_gap(out: &mut Vec<Line>, index: usize)
    ensures
        layouts(final(out)@) == layouts(old(out)@) + gap(index as nat),
{
    let ghost before = layouts(out@);
    if index > 0 {
        out.push(line("".to_owned(), Style::Plain));
    }
    assert(layouts(out@) =~= before + gap(index as nat));
}

fn add_lines(out: &mut Vec<Line>, more: Vec<Line>)
    ensures
        layouts(final(out)@) == layouts(old(out)@) + layouts(more@),
{
    let ghost before = layouts(out@);
    let ghost added = layouts(more@);
    let mut more = more;
    out.append(&mut more);
    assert(layouts(out@) =~= before + added);
}

fn view_file(cards: &[(String, VCard)]) -> (out: Vec<Line>)
    ensures
        layouts(out@) == file_view(labelled_models(cards@), cards@.len()),
{
    let ghost model = labelled_models(cards@);
    let mut out: Vec<Line> = Vec::new();
    let mut i: usize = 0;
    assert(layouts(out@) =~= Seq::<LineLayout>::empty());
    while i < cards.len()
        invariant
            model == labelled_models(cards@),
            i <= cards.len(),
            layouts(out@) == file_view(model, i as nat),
        decreases cards.len() - i,
    {
        assert(model[i as int].1 == cards@[i as int].1@);
        add_gap(&mut out, i);
        add_lines(&mut out, card_view(&cards[i].1, i, cards.len()));
        i = i + 1;
    }
    out
}

/// What is shown of the contacts of a file or, if `is_dir` is set, of a
/// directory.
pub open spec fn spec_view(cards: Seq<(Seq<char>, Seq<PropertyModel>)>, is_dir: bool) -> Seq<
    LineLayout,
> {
    if is_dir {
        directory_view(cards)
    } else {
        file_view(cards, cards.len())
    }
}

/// Whether a text is what a view may be printed as: its lines as they come
/// out on the terminal, each ended by a line feed.
pub open spec fn view_printed(view: Seq<LineLayout>, out: Seq<char>) -> bool {
    exists|shown: Seq<Seq<char>>|
        #![trigger lines_painted(view, shown)]
        lines_painted(view, shown) && out == spec_write_lines(shown, "\n"@)
}

/// What the program prints for a list of cards: CSV, or else a view on the
/// terminal.
pub fn report(cards: &[(String, VCard)], csv: bool, is_dir: bool) -> (out: String)
    ensures
        csv ==> out@ == spec_csv(labelled_models(cards@)),
        !csv ==> view_printed(spec_view(labelled_models(cards@), is_dir), out@),
{
    if csv {
        return output_csv(cards);
    }
    let shown = if is_dir {
        render_all(&view_directory(cards))
    } else {
        render_all(&view_file(cards))
    };
    assert(lines_painted(spec_view(labelled_models(cards@), is_dir), texts(shown@)));
    write_lines(&shown, "\n")
}

} // verus!
