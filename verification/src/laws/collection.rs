//! Laws of the cards of many files.

use crate::card::PropertyModel;
use crate::cli::{
    first_path, is_flag, label_each, labels, spec_collect, spec_parse_args, CommandModel,
};
use crate::laws::cards::law_empty_text;
use crate::parse::spec_parse_vcards;
use vstd::prelude::*;

verus! {

/// The cards of two lists of files, one behind the other, are those of the
/// first and then those of the second.
pub proof fn law_collect_concat(
    a: Seq<(Seq<char>, Seq<char>)>,
    b: Seq<(Seq<char>, Seq<char>)>,
)
    ensures
        spec_collect(a + b) == spec_collect(a) + spec_collect(b),
    decreases b.len(),
{
    let all = a + b;
    if b.len() == 0 {
        assert(all =~= a);
        assert(spec_collect(a) + spec_collect(b) =~= spec_collect(a));
    } else {
        law_collect_concat(a, b.drop_last());
        assert(all.drop_last() =~= a + b.drop_last());
        assert(all.last() == b.last());
        let more = label_each(b.last().0, spec_parse_vcards(b.last().1));
        assert(spec_collect(a) + spec_collect(b.drop_last()) + more =~= spec_collect(a) + (
        spec_collect(b.drop_last()) + more));
    }
}

/// An empty file adds nothing, whatever its place among the others.
pub proof fn law_empty_file_ignored(
    before: Seq<(Seq<char>, Seq<char>)>,
    name: Seq<char>,
    after: Seq<(Seq<char>, Seq<char>)>,
)
    ensures
        spec_collect(before.push((name, Seq::empty())) + after) == spec_collect(before + after),
{
    let with = before.push((name, Seq::empty()));
    law_collect_concat(with, after);
    law_collect_concat(before, after);
    law_empty_text();
    assert(with.drop_last() =~= before);
    let none = label_each(name, spec_parse_vcards(Seq::empty()));
    assert(none =~= Seq::<(Seq<char>, Seq<PropertyModel>)>::empty());
    assert(spec_collect(with) =~= spec_collect(before));
}

/// Each card carries the name of a file that holds it.
pub proof fn law_cards_from_files(sources: Seq<(Seq<char>, Seq<char>)>)
    ensures
        forall|i: int|
            0 <= i < spec_collect(sources).len() ==> exists|j: int|
                0 <= j < sources.len() && (#[trigger] sources[j]).0 == (
                #[trigger] spec_collect(sources)[i]).0 && spec_parse_vcards(sources[j].1).contains(
                    spec_collect(sources)[i].1,
                ),
    decreases sources.len(),
{
    if sources.len() > 0 {
        let init = sources.drop_last();
        let last = sources[sources.len() - 1];
        let before = spec_collect(init);
        let all = spec_collect(sources);
        law_cards_from_files(init);
        assert forall|i: int| 0 <= i < all.len() implies exists|j: int|
            0 <= j < sources.len() && (#[trigger] sources[j]).0 == (#[trigger] all[i]).0
                && spec_parse_vcards(sources[j].1).contains(all[i].1) by {
            if i < before.len() {
                assert(all[i] == before[i]);
                let j = choose|j: int|
                    0 <= j < init.len() && (#[trigger] init[j]).0 == before[i].0
                        && spec_parse_vcards(init[j].1).contains(before[i].1);
                assert(sources[j] == init[j]);
            } else {
                assert(all[i].1 == spec_parse_vcards(last.1)[i - before.len()]);
                assert(sources[sources.len() - 1].0 == all[i].0);
            }
        }
    }
}

/// The number of files that cards came from is neither more than the number
/// of cards nor more than the number of files that were read.
pub proof fn law_file_count(sources: Seq<(Seq<char>, Seq<char>)>)
    ensures
        labels(spec_collect(sources)).to_set().len() <= spec_collect(sources).len(),
        labels(spec_collect(sources)).to_set().len() <= sources.len(),
{
    let found = labels(spec_collect(sources));
    let names = sources.map_values(|s: (Seq<char>, Seq<char>)| s.0);
    found.lemma_cardinality_of_set();
    names.lemma_cardinality_of_set();
    vstd::seq_lib::seq_to_set_is_finite(names);
    law_cards_from_files(sources);
    assert forall|x: Seq<char>| found.to_set().contains(x) implies names.to_set().contains(x) by {
        let i = choose|i: int| 0 <= i < found.len() && found[i] == x;
        assert(spec_collect(sources)[i].0 == x);
        let j = choose|j: int| 0 <= j < sources.len() && (#[trigger] sources[j]).0 == x;
        assert(names[j] == x);
    }
    vstd::set_lib::lemma_len_subset(found.to_set(), names.to_set());
}

proof fn lemma_path_past_flag(args: Seq<Seq<char>>, i: int, flag: Seq<char>)
    requires
        0 <= i <= args.len(),
        is_flag(flag),
    ensures
        first_path(args.insert(i, flag)) == first_path(args),
    decreases args.len(),
{
    let with = args.insert(i, flag);
    if i == 0 {
        assert(with.skip(1) =~= args);
    } else {
        assert(with.skip(1) =~= args.skip(1).insert(i - 1, flag));
        lemma_path_past_flag(args.skip(1), i - 1, flag);
    }
}

/// A flag may stand anywhere behind the program's name. The one for CSV turns
/// CSV on and leaves the path as it was.
pub proof fn law_csv_anywhere(args: Seq<Seq<char>>, i: int)
    requires
        1 <= i <= args.len(),
    ensures
        spec_parse_args(args) matches CommandModel::View { csv, path } ==> spec_parse_args(
            args.insert(i, "--csv"@),
        ) == (CommandModel::View { csv: true, path }),
{
    reveal_strlit("--csv");
    reveal_strlit("-h");
    reveal_strlit("--help");
    let with = args.insert(i, "--csv"@);
    if spec_parse_args(args) is View {
        assert(with[i] == "--csv"@);
        assert(with.contains("--csv"@));
        assert("-h"@.len() != "--csv"@.len());
        assert("--help"@.len() != "--csv"@.len());
        assert forall|k: int| 0 <= k < with.len() implies with[k] != "-h"@ && with[k]
            != "--help"@ by {
            if k < i {
                assert(args.contains(args[k]));
            } else if k > i {
                assert(with[k] == args[k - 1]);
                assert(args.contains(args[k - 1]));
            }
        }
        lemma_path_past_flag(args.skip(1), i - 1, "--csv"@);
        assert(with.skip(1) =~= args.skip(1).insert(i - 1, "--csv"@));
    }
}

/// To ask for help anywhere is to ask for nothing else.
pub proof fn law_help_anywhere(args: Seq<Seq<char>>, i: int)
    requires
        0 <= i < args.len(),
        args[i] == "-h"@ || args[i] == "--help"@,
    ensures
        spec_parse_args(args) == CommandModel::Usage,
{
    assert(args.contains(args[i]));
}

} // verus!
