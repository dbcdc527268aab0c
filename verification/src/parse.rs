//! From the text of a contact file to cards.

use crate::card::{param_texts, property_models, Property, PropertyModel, VCard};
use crate::outside::no_lower;
use crate::text::{
    chars_of, eq_ignore_case, lines, replace, spec_eq_ignore_case, spec_lines, spec_replace,
    spec_split, spec_split_once, spec_trim_cr, spec_upper, split, split_once, texts, trim_cr, upper,
};
use vstd::prelude::*;

verus! {

/// Whether a character may follow a line break that folds a line.
pub open spec fn is_fold_space(c: char) -> bool {
    c == ' ' || c == '\t'
}

/// A text without its folds. A fold is a line feed and one space or tab
/// behind it.
pub open spec fn drop_folds(s: Seq<char>) -> Seq<char>
    decreases s.len(),
{
    if s.len() == 0 {
        s
    } else if s.len() > 1 && s[0] == '\n' && is_fold_space(s[1]) {
        drop_folds(s.skip(2))
    } else {
        seq![s[0]] + drop_folds(s.skip(1))
    }
}

/// A text with each CRLF turned into a line feed, and then without its folds.
pub open spec fn spec_unfold(s: Seq<char>) -> Seq<char> {
    drop_folds(spec_replace(s, "\r\n"@, "\n"@))
}

/// Unfold logical lines (RFC 6350, section 3.2): a CRLF or LF followed by a
/// single white space character is a line continuation and is removed.
pub fn unfold(content: &str) -> (out: String)
    ensures
        out@ == spec_unfold(content@),
{
    proof {
        reveal_strlit("\r\n");
    }
    let normalized = replace(content, "\r\n", "\n");
    let chars = chars_of(&normalized);
    let ghost model = chars@;
    let mut out = String::new();
    let mut i: usize = 0;
    assert(model.skip(0) =~= model);
    while i < chars.len()
        invariant
            chars@ == model,
            i <= chars.len(),
            drop_folds(model) == out@ + drop_folds(model.skip(i as int)),
        decreases chars.len() - i,
    {
        let ghost rest = model.skip(i as int);
        let ghost before = out@;
        if chars[i] == '\n' && chars.len() - i > 1 && (chars[i + 1] == ' ' || chars[i + 1]
            == '\t') {
            assert(rest.skip(2) =~= model.skip(i + 2));
            i = i + 2;
        } else {
            out.push(chars[i]);
            assert(rest.skip(1) =~= model.skip(i + 1));
            assert(before + (seq![rest[0]] + drop_folds(model.skip(i + 1))) =~= out@ + drop_folds(
                model.skip(i + 1),
            ));
            i = i + 1;
        }
    }
    assert(model.skip(model.len() as int) =~= Seq::<char>::empty());
    assert(out@ + Seq::<char>::empty() =~= out@);
    out
}

/// The parts of one line as they were written. A parameter without a key is
/// a bare token.
pub struct LineParts {
    pub name: String,
    pub params: Vec<(Option<String>, String)>,
    pub value: String,
}

/// The text of a [`LineParts`].
pub struct LineModel {
    pub name: Seq<char>,
    pub params: Seq<(Option<Seq<char>>, Seq<char>)>,
    pub value: Seq<char>,
}

/// The text of a parameter.
pub open spec fn written_param(p: (Option<String>, String)) -> (Option<Seq<char>>, Seq<char>) {
    match p.0 {
        Some(key) => (Some(key@), p.1@),
        None => (None, p.1@),
    }
}

/// The text of a list of parameters.
pub open spec fn written_params(params: Seq<(Option<String>, String)>) -> Seq<
    (Option<Seq<char>>, Seq<char>),
> {
    params.map_values(|p: (Option<String>, String)| written_param(p))
}

impl View for LineParts {
    type V = LineModel;

    open spec fn view(&self) -> LineModel {
        LineModel { name: self.name@, params: written_params(self.params@), value: self.value@ }
    }
}

/// A name without a group in front of it, such as `item1.`.
pub open spec fn without_group(raw: Seq<char>) -> Seq<char> {
    match spec_split_once(raw, '.') {
        Some((group, name)) => name,
        None => raw,
    }
}

/// A parameter: `KEY=value`, or a bare token.
pub open spec fn split_param(part: Seq<char>) -> (Option<Seq<char>>, Seq<char>) {
    match spec_split_once(part, '=') {
        Some((key, value)) => (Some(key), value),
        None => (None, part),
    }
}

/// The parameters behind a name.
pub open spec fn split_params(parts: Seq<Seq<char>>) -> Seq<(Option<Seq<char>>, Seq<char>)> {
    parts.map_values(|p: Seq<char>| split_param(p))
}

/// The parts of a line: the value stands behind the first colon, and before
/// it the name and the parameters, with semicolons between them.
pub open spec fn spec_split_line(line: Seq<char>) -> Option<LineModel> {
    match spec_split_once(line, ':') {
        Some((head, value)) => {
            let parts = spec_split(head, ';');
            Some(
                LineModel {
                    name: without_group(parts[0]),
                    params: split_params(parts.skip(1)),
                    value,
                },
            )
        },
        None => None,
    }
}

/// The parts of a line as they were written; `None` if it has no colon.
pub fn split_line(line: &str) -> (out: Option<LineParts>)
    ensures
        match out {
            Some(parts) => spec_split_line(line@) == Some(parts@),
            None => spec_split_line(line@) is None,
        },
{
    let (head, value) = match split_once(line, ':') {
        Some(halves) => halves,
        None => {
            return None;
        },
    };
    let parts = split(&head, ';');
    let ghost model = spec_split(head@, ';');
    let ghost wanted = split_params(model.skip(1));
    assert(model.len() >= 1);
    assert(texts(parts@).len() == parts@.len());
    assert(texts(parts@)[0] == parts@[0]@);
    let name = match split_once(&parts[0], '.') {
        Some((_, name)) => name,
        None => parts[0].clone(),
    };
    let mut params: Vec<(Option<String>, String)> = Vec::new();
    let mut i: usize = 1;
    while i < parts.len()
        invariant
            texts(parts@) == model,
            wanted == split_params(model.skip(1)),
            1 <= i <= parts.len(),
            written_params(params@) == wanted.take(i - 1),
        decreases parts.len() - i,
    {
        let ghost before = params@;
        assert(texts(parts@)[i as int] == parts@[i as int]@);
        let param = match split_once(&parts[i], '=') {
            Some((key, v)) => (Some(key), v),
            None => (None, parts[i].clone()),
        };
        assert(written_param(param) == wanted[i - 1]);
        params.push(param);
        assert(written_params(params@) =~= written_params(before).push(wanted[i - 1]));
        assert(wanted.take(i as int) =~= wanted.take(i - 1).push(wanted[i - 1]));
        i = i + 1;
    }
    assert(wanted.take(wanted.len() as int) =~= wanted);
    Some(LineParts { name, params, value })
}

/// A parameter with its key in upper case; a bare token counts as a `TYPE`.
pub open spec fn canonical_param(p: (Option<Seq<char>>, Seq<char>)) -> (Seq<char>, Seq<char>) {
    match p.0 {
        Some(key) => (spec_upper(key), p.1),
        None => ("TYPE"@, p.1),
    }
}

/// Parameters with their keys in upper case.
pub open spec fn canonical_params(params: Seq<(Option<Seq<char>>, Seq<char>)>) -> Seq<
    (Seq<char>, Seq<char>),
> {
    params.map_values(|p: (Option<Seq<char>>, Seq<char>)| canonical_param(p))
}

/// The property that a line stands for: its parts, with the name and the
/// keys in upper case.
pub open spec fn canonical(parts: LineModel) -> PropertyModel {
    PropertyModel {
        name: spec_upper(parts.name),
        params: canonical_params(parts.params),
        value: parts.value,
    }
}

/// The property that a line holds, if it has a colon.
pub open spec fn spec_parse_line(line: Seq<char>) -> Option<PropertyModel> {
    match spec_split_line(line) {
        Some(parts) => Some(canonical(parts)),
        None => None,
    }
}

/// Whether the name of a property and the keys of its parameters hold no
/// lower-case ASCII letter.
pub open spec fn is_upper(p: PropertyModel) -> bool {
    &&& no_lower(p.name)
    &&& forall|i: int| 0 <= i < p.params.len() ==> no_lower((#[trigger] p.params[i]).0)
}

/// Parse a single `KEY;PARAM=VAL:value` line.
pub fn parse_line(line: &str) -> (out: Option<Property>)
    ensures
        match out {
            Some(p) => spec_parse_line(line@) == Some(p@) && is_upper(p@),
            None => spec_parse_line(line@) is None,
        },
{
    let parts = match split_line(line) {
        Some(parts) => parts,
        None => {
            return None;
        },
    };
    proof {
        reveal_strlit("TYPE");
    }
    let ghost wanted = canonical_params(parts@.params);
    let name = upper(&parts.name);
    let mut params: Vec<(String, String)> = Vec::new();
    let mut i: usize = 0;
    while i < parts.params.len()
        invariant
            wanted == canonical_params(parts@.params),
            i <= parts.params.len(),
            param_texts(params@) == wanted.take(i as int),
            no_lower("TYPE"@),
            forall|j: int| 0 <= j < i ==> no_lower((#[trigger] param_texts(params@)[j]).0),
        decreases parts.params.len() - i,
    {
        let ghost before = params@;
        assert(parts@.params[i as int] == written_param(parts.params@[i as int]));
        let key = match &parts.params[i].0 {
            Some(key) => upper(key),
            None => "TYPE".to_owned(),
        };
        params.push((key, parts.params[i].1.clone()));
        assert(param_texts(params@) =~= param_texts(before).push(wanted[i as int]));
        assert(wanted.take(i + 1) =~= wanted.take(i as int).push(wanted[i as int]));
        i = i + 1;
    }
    assert(wanted.take(wanted.len() as int) =~= wanted);
    Some(Property { name, params, value: parts.value })
}

/// The text of a list of cards.
pub open spec fn card_models(cards: Seq<VCard>) -> Seq<Seq<PropertyModel>> {
    cards.map_values(|c: VCard| c@)
}

/// What reading has found so far: the finished cards, and the properties of
/// the card that is open, if one is.
pub struct ScanModel {
    pub cards: Seq<Seq<PropertyModel>>,
    pub current: Option<Seq<PropertyModel>>,
}

/// Nothing found, and no card open.
pub open spec fn scan_start() -> ScanModel {
    ScanModel { cards: Seq::empty(), current: None }
}

/// Whether a line opens a card.
pub open spec fn is_begin(line: Seq<char>) -> bool {
    spec_eq_ignore_case(spec_trim_cr(line), "BEGIN:VCARD"@)
}

/// Whether a line closes a card.
pub open spec fn is_end(line: Seq<char>) -> bool {
    spec_eq_ignore_case(spec_trim_cr(line), "END:VCARD"@)
}

/// What one more line does.
pub open spec fn scan_line(state: ScanModel, line: Seq<char>) -> ScanModel {
    if is_begin(line) {
        ScanModel { current: Some(Seq::empty()), ..state }
    } else {
        match state.current {
            None => state,
            Some(props) => if is_end(line) {
                ScanModel { cards: state.cards.push(props), current: None }
            } else {
                match spec_parse_line(spec_trim_cr(line)) {
                    Some(p) => ScanModel { current: Some(props.push(p)), ..state },
                    None => state,
                }
            },
        }
    }
}

/// What a list of lines does, one after the other.
pub open spec fn scan_lines(state: ScanModel, lines: Seq<Seq<char>>) -> ScanModel
    decreases lines.len(),
{
    if lines.len() == 0 {
        state
    } else {
        scan_line(scan_lines(state, lines.drop_last()), lines.last())
    }
}

/// What reading a whole text finds.
pub open spec fn spec_scan(content: Seq<char>) -> ScanModel {
    scan_lines(scan_start(), spec_lines(spec_unfold(content)))
}

/// The cards of a text: those that are both opened and closed.
pub open spec fn spec_parse_vcards(content: Seq<char>) -> Seq<Seq<PropertyModel>> {
    spec_scan(content).cards
}

/// The text of an open card.
pub open spec fn open_model(current: Option<Vec<Property>>) -> Option<Seq<PropertyModel>> {
    match current {
        Some(props) => Some(property_models(props@)),
        None => None,
    }
}

/// Whether [`is_upper`] holds of all properties of a card.
pub open spec fn all_upper(card: Seq<PropertyModel>) -> bool {
    forall|i: int| 0 <= i < card.len() ==> is_upper(#[trigger] card[i])
}

/// Parse the entire text of a contact file.
pub fn parse_vcards(content: &str) -> (out: Vec<VCard>)
    ensures
        card_models(out@) == spec_parse_vcards(content@),
        forall|i: int| 0 <= i < out@.len() ==> all_upper((#[trigger] out@[i])@),
{
    let unfolded = unfold(content);
    let all = lines(&unfolded);
    let ghost model = spec_lines(unfolded@);
    let mut cards: Vec<VCard> = Vec::new();
    let mut current: Option<Vec<Property>> = None;
    let mut i: usize = 0;
    assert(card_models(cards@) =~= Seq::<Seq<PropertyModel>>::empty());
    while i < all.len()
        invariant
            texts(all@) == model,
            i <= all.len(),
            scan_lines(scan_start(), model.take(i as int)) == (ScanModel {
                cards: card_models(cards@),
                current: open_model(current),
            }),
            forall|k: int| 0 <= k < cards@.len() ==> all_upper((#[trigger] cards@[k])@),
            open_model(current) matches Some(props) ==> all_upper(props),
        decreases all.len() - i,
    {
        let ghost next = model.take(i + 1);
        let ghost before = cards@;
        assert(next.drop_last() =~= model.take(i as int));
        assert(texts(all@)[i as int] == all@[i as int]@);
        assert(next.last() == all@[i as int]@);
        let line = trim_cr(&all[i]);
        if eq_ignore_case(&line, "BEGIN:VCARD") {
            let props: Vec<Property> = Vec::new();
            assert(property_models(props@) =~= Seq::<PropertyModel>::empty());
            current = Some(props);
        } else if let Some(mut props) = current.take() {
            let ghost model_before = property_models(props@);
            if eq_ignore_case(&line, "END:VCARD") {
                cards.push(VCard { properties: props });
                assert(card_models(cards@) =~= card_models(before).push(model_before));
            } else {
                if let Some(p) = parse_line(&line) {
                    props.push(p);
                    assert(property_models(props@) =~= model_before.push(p@));
                }
                current = Some(props);
            }
        }
        i = i + 1;
    }
    assert(model.take(model.len() as int) =~= model);
    cards
}

} // verus!
