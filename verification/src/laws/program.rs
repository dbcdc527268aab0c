//! Laws of what the program does with its arguments and its files.

use crate::card::PropertyModel;
use crate::cli::{
    file_view, first_path, gap, labels, labelled_rows, spec_collect, spec_is_card_extension,
    spec_parse_args, spec_view, CommandModel,
};
use crate::laws::layout::plain_text;
use crate::parse::spec_parse_vcards;
use crate::show::{line_of, spec_card_view};
use crate::style::{spec_concat, LineLayout, SpanModel, Style};
use crate::table::{spec_from_card, spec_table};
use crate::text::{spec_decimal, spec_eq_ignore_case, spec_pad_right};
use vstd::prelude::*;

verus! {

/// Whether an argument begins with a dash.
pub open spec fn is_dashed(arg: Seq<char>) -> bool {
    arg.len() > 0 && arg[0] == '-'
}

/// Whether an argument stands in a place and is the first behind the program's
/// name that does not begin with a dash.
pub open spec fn is_path_at(args: Seq<Seq<char>>, i: int) -> bool {
    &&& 1 <= i < args.len()
    &&& !is_dashed(args[i])
    &&& forall|j: int| 1 <= j < i ==> is_dashed(#[trigger] args[j])
}

proof fn lemma_first_path(args: Seq<Seq<char>>)
    ensures
        forall|i: int|
            0 <= i < args.len() && !is_dashed(#[trigger] args[i]) && (forall|j: int|
                0 <= j < i ==> is_dashed(#[trigger] args[j])) ==> first_path(args) == Some(args[i]),
        (forall|j: int| 0 <= j < args.len() ==> is_dashed(#[trigger] args[j])) ==> first_path(
            args,
        ) is None,
    decreases args.len(),
{
    if args.len() > 0 {
        let rest = args.skip(1);
        lemma_first_path(rest);
        assert forall|i: int|
            0 <= i < args.len() && !is_dashed(#[trigger] args[i]) && (forall|j: int|
                0 <= j < i ==> is_dashed(#[trigger] args[j])) implies first_path(args) == Some(
            args[i],
        ) by {
            if i > 0 {
                assert(is_dashed(args[0]));
                assert(rest[i - 1] == args[i]);
                assert forall|j: int| 0 <= j < i - 1 implies is_dashed(#[trigger] rest[j]) by {
                    assert(rest[j] == args[j + 1]);
                }
            }
        }
        if forall|j: int| 0 <= j < args.len() ==> is_dashed(#[trigger] args[j]) {
            assert(is_dashed(args[0]));
            assert forall|j: int| 0 <= j < rest.len() implies is_dashed(#[trigger] rest[j]) by {
                assert(rest[j] == args[j + 1]);
            }
        }
    }
}

/// Where nobody asks for help, the first argument without a dash is the path,
/// and CSV is asked for exactly if `--csv` is among the arguments. Without such
/// an argument the path is missing, and without any the usage is asked for.
pub proof fn law_arguments(args: Seq<Seq<char>>)
    requires
        forall|j: int| 0 <= j < args.len() ==> #[trigger] args[j] != "-h"@ && args[j] != "--help"@,
    ensures
        args.len() < 2 <==> spec_parse_args(args) == CommandModel::Usage,
        forall|i: int|
            #[trigger] is_path_at(args, i) ==> spec_parse_args(args) == (CommandModel::View {
                csv: exists|j: int| 0 <= j < args.len() && #[trigger] args[j] == "--csv"@,
                path: args[i],
            }),
        args.len() >= 2 && (forall|j: int| 1 <= j < args.len() ==> is_dashed(#[trigger] args[j]))
            ==> spec_parse_args(args) == CommandModel::MissingPath,
{
    let rest = args.skip(1);
    lemma_first_path(rest);
    assert(!args.contains("-h"@) && !args.contains("--help"@));
    assert forall|i: int| #[trigger] is_path_at(args, i) implies spec_parse_args(args) == (
    CommandModel::View {
        csv: exists|j: int| 0 <= j < args.len() && #[trigger] args[j] == "--csv"@,
        path: args[i],
    }) by {
        assert(rest[i - 1] == args[i]);
        assert forall|j: int| 0 <= j < i - 1 implies is_dashed(#[trigger] rest[j]) by {
            assert(rest[j] == args[j + 1]);
        }
    }
    if args.len() >= 2 && (forall|j: int| 1 <= j < args.len() ==> is_dashed(#[trigger] args[j])) {
        assert forall|j: int| 0 <= j < rest.len() implies is_dashed(#[trigger] rest[j]) by {
            assert(rest[j] == args[j + 1]);
        }
    }
}

/// A contact file ends in `vcf` or `vcard`, in any case.
pub proof fn law_extension(ext: Seq<char>)
    ensures
        spec_is_card_extension(ext) <==> spec_eq_ignore_case(ext, "vcf"@) || spec_eq_ignore_case(
            ext,
            "vcard"@,
        ),
{
}

/// One more file adds all its cards behind the others, each with the name of
/// the file.
pub proof fn law_one_more_file(
    sources: Seq<(Seq<char>, Seq<char>)>,
    name: Seq<char>,
    text: Seq<char>,
)
    ensures
        ({
            let before = spec_collect(sources);
            let all = spec_collect(sources.push((name, text)));
            let cards = spec_parse_vcards(text);
            &&& spec_collect(Seq::empty()).len() == 0
            &&& all.len() == before.len() + cards.len()
            &&& all.take(before.len() as int) == before
            &&& forall|i: int|
                0 <= i < cards.len() ==> #[trigger] all[before.len() + i] == (name, cards[i])
        }),
{
    let before = spec_collect(sources);
    let all = spec_collect(sources.push((name, text)));
    assert(sources.push((name, text)).drop_last() =~= sources);
    assert(all.take(before.len() as int) =~= before);
}

/// The label of a card is the name of its file.
pub proof fn law_labels(cards: Seq<(Seq<char>, Seq<PropertyModel>)>)
    ensures
        labels(cards).len() == cards.len(),
        forall|i: int| 0 <= i < cards.len() ==> #[trigger] labels(cards)[i] == cards[i].0,
{
}

proof fn lemma_one_text(line: LineLayout)
    requires
        line.spans.len() == 1,
        line.spans[0].width == 0,
    ensures
        plain_text(line) == line.spans[0].text,
{
    let shown = line.spans.map_values(|s: SpanModel| spec_pad_right(s.text, s.width));
    assert(shown =~= seq![line.spans[0].text]);
    assert(spec_concat(shown.drop_last()) =~= Seq::<char>::empty());
    assert(Seq::<char>::empty() + line.spans[0].text =~= line.spans[0].text);
}

/// What is shown of a directory: in bold how many cards there are and from how
/// many files, an empty line, and a table with a row for each card, in their
/// order.
pub proof fn law_directory_shown(cards: Seq<(Seq<char>, Seq<PropertyModel>)>)
    ensures
        ({
            let view = spec_view(cards, true);
            let files = cards.map_values(|c: (Seq<char>, Seq<PropertyModel>)| c.0).to_set().len();
            let rows = cards.map_values(
                |c: (Seq<char>, Seq<PropertyModel>)| spec_from_card(c.1),
            );
            &&& view.len() >= 2
            &&& plain_text(view[0]) == "  "@ + spec_decimal(cards.len()) + " vCard"@ + (
            if cards.len() == 1 {
                ""@
            } else {
                "s"@
            }) + " from "@ + spec_decimal(files) + " file"@ + (if files == 1 {
                ""@
            } else {
                "s"@
            })
            &&& view[0].style == Style::Bold
            &&& plain_text(view[1]) == ""@
            &&& view.skip(2) == spec_table(rows)
        }),
{
    let view = spec_view(cards, true);
    let names = cards.map_values(|c: (Seq<char>, Seq<PropertyModel>)| c.0);
    assert(names =~= labels(cards));
    let rows = cards.map_values(|c: (Seq<char>, Seq<PropertyModel>)| spec_from_card(c.1));
    assert(rows =~= labelled_rows(cards));
    lemma_one_text(view[0]);
    lemma_one_text(view[1]);
    assert(view.skip(2) =~= spec_table(rows));
}

/// Where the view of a card begins among those of a file.
pub open spec fn card_start(cards: Seq<(Seq<char>, Seq<PropertyModel>)>, n: nat) -> nat
    decreases n,
{
    if n == 0 {
        0
    } else {
        let before = (n - 1) as nat;
        card_start(cards, before) + spec_card_view(cards[before as int].1, before, cards.len()).len()
            + 1
    }
}

/// Whether a view holds that of a card in its place, behind an empty line if
/// it is not the first.
pub open spec fn stands_in(
    view: Seq<LineLayout>,
    cards: Seq<(Seq<char>, Seq<PropertyModel>)>,
    i: int,
) -> bool {
    let one = spec_card_view(cards[i].1, i as nat, cards.len());
    let at = card_start(cards, i as nat) as int;
    &&& at + one.len() <= view.len()
    &&& view.subrange(at, at + one.len()) == one
    &&& i > 0 ==> plain_text(view[at - 1]) == ""@
}

proof fn lemma_still_stands(
    before: Seq<LineLayout>,
    more: Seq<LineLayout>,
    cards: Seq<(Seq<char>, Seq<PropertyModel>)>,
    i: int,
)
    requires
        0 <= i,
        stands_in(before, cards, i),
    ensures
        stands_in(before + more, cards, i),
{
    let one = spec_card_view(cards[i].1, i as nat, cards.len());
    let at = card_start(cards, i as nat) as int;
    let view = before + more;
    assert(view.subrange(at, at + one.len()) =~= before.subrange(at, at + one.len()));
    if i > 0 {
        assert(at >= 1);
        assert(view[at - 1] == before[at - 1]);
    }
}

#[verifier::spinoff_prover]
proof fn lemma_file_view(cards: Seq<(Seq<char>, Seq<PropertyModel>)>, n: nat)
    requires
        n <= cards.len(),
    ensures
        n == 0 ==> file_view(cards, n).len() == 0,
        n > 0 ==> file_view(cards, n).len() + 1 == card_start(cards, n),
        forall|i: int| 0 <= i < n ==> #[trigger] stands_in(file_view(cards, n), cards, i),
    decreases n,
{
    if n > 0 {
        let m = (n - 1) as nat;
        let view = file_view(cards, n);
        let before = file_view(cards, m);
        let space = gap(m);
        let last = spec_card_view(cards[m as int].1, m, cards.len());
        lemma_file_view(cards, m);
        assert(view == before + space + last);
        assert(view =~= before + (space + last));
        assert forall|i: int| 0 <= i < n implies #[trigger] stands_in(view, cards, i) by {
            if i < m {
                assert(stands_in(before, cards, i));
                lemma_still_stands(before, space + last, cards, i);
            } else {
                let at = card_start(cards, m) as int;
                assert(view.subrange(at, at + last.len()) =~= last);
                if m > 0 {
                    lemma_one_text(line_of(""@, Style::Plain));
                    assert(view[at - 1] == line_of(""@, Style::Plain));
                }
            }
        }
    }
}

/// What is shown of a file: the view of each card, with its number and how many
/// there are, one below the other in their order, with an empty line between
/// two and nothing else.
pub proof fn law_file_shown(cards: Seq<(Seq<char>, Seq<PropertyModel>)>)
    ensures
        cards.len() == 0 ==> spec_view(cards, false).len() == 0,
        cards.len() > 0 ==> spec_view(cards, false).len() + 1 == card_start(cards, cards.len()),
        forall|i: int|
            0 <= i < cards.len() ==> #[trigger] stands_in(spec_view(cards, false), cards, i),
{
    lemma_file_view(cards, cards.len());
}

} // verus!
