//! Lines of styled text, and how they come out on a terminal.

use crate::text::{pad_right, spec_pad_right, spec_replace, texts};
use colored::Colorize;
use vstd::prelude::*;

verus! {

/// How a piece of text is to stand out.
#[derive(Debug, Clone, Copy, PartialEq, Eq, Structural)]
pub enum Style {
    Plain,
    Bold,
    Dimmed,
    Cyan,
    BoldBlue,
    BoldWhite,
    BoldCyan,
}

/// A piece of text in one style, filled up with spaces to a width.
#[derive(Debug, Clone)]
pub struct Span {
    pub text: String,
    pub style: Style,
    pub width: u16,
}

/// A line to be shown. Its own style lies around the spans.
#[derive(Debug, Clone)]
pub struct Line {
    pub spans: Vec<Span>,
    pub style: Style,
}

/// The contents of a [`Span`].
pub struct SpanModel {
    pub text: Seq<char>,
    pub style: Style,
    pub width: nat,
}

/// The contents of a [`Line`].
pub struct LineLayout {
    pub spans: Seq<SpanModel>,
    pub style: Style,
}

impl View for Span {
    type V = SpanModel;

    open spec fn view(&self) -> SpanModel {
        SpanModel { text: self.text@, style: self.style, width: self.width as nat }
    }
}

/// The contents of a list of spans.
pub open spec fn span_models(spans: Seq<Span>) -> Seq<SpanModel> {
    spans.map_values(|s: Span| s@)
}

impl View for Line {
    type V = LineLayout;

    open spec fn view(&self) -> LineLayout {
        LineLayout { spans: span_models(self.spans@), style: self.style }
    }
}

/// The contents of a list of lines.
pub open spec fn layouts(lines: Seq<Line>) -> Seq<LineLayout> {
    lines.map_values(|l: Line| l@)
}

/// The numbers by which a terminal is told to take up a style.
pub open spec fn style_codes(style: Style) -> Seq<char> {
    match style {
        Style::Plain => ""@,
        Style::Bold => "1"@,
        Style::Dimmed => "2"@,
        Style::Cyan => "36"@,
        Style::BoldBlue => "1;34"@,
        Style::BoldWhite => "1;37"@,
        Style::BoldCyan => "1;36"@,
    }
}

/// The escape sequence that takes up the style with the given numbers.
pub open spec fn opening(codes: Seq<char>) -> Seq<char> {
    "\u{1b}["@ + codes + "m"@
}

/// A text in which the style is taken up anew after each reset inside it.
pub open spec fn reopened(text: Seq<char>, codes: Seq<char>) -> Seq<char> {
    spec_replace(text, "\u{1b}[0m"@, "\u{1b}[0m"@ + opening(codes))
}

/// A text as it comes out in a style: where colours are switched on, it
/// stands between the escape sequence for the style and the reset; where
/// they are switched off, it is the text alone. Either way the text is
/// filled up with spaces to the width.
pub open spec fn painted(text: Seq<char>, width: nat, codes: Seq<char>, out: Seq<char>) -> bool {
    ||| out == spec_pad_right(text, width)
    ||| out == opening(codes) + spec_pad_right(reopened(text, codes), width) + "\u{1b}[0m"@
}

/// `Colorize::bold` of the crate `colored`, shown through the `Display` of its
/// `ColoredString`: the text as [`painted`] says, in bold. Whether colours
/// are on depends on the terminal and the environment, so nothing is said of
/// which of the two it is. The crate asks more than once in one call, and the
/// answer is taken to hold still for that long.
#[verifier::external_body]
fn paint_bold(text: &str, width: u16) -> (out: String)
    ensures
        painted(text@, width as nat, "1"@, out@),
{
    format!("{:<w$}", text.bold(), w = width as usize)
}

/// `Colorize::dimmed` of the crate `colored`: as [`paint_bold`], but dimmed.
#[verifier::external_body]
fn paint_dimmed(text: &str, width: u16) -> (out: String)
    ensures
        painted(text@, width as nat, "2"@, out@),
{
    format!("{:<w$}", text.dimmed(), w = width as usize)
}

/// `Colorize::cyan` of the crate `colored`: as [`paint_bold`], but in cyan.
#[verifier::external_body]
fn paint_cyan(text: &str, width: u16) -> (out: String)
    ensures
        painted(text@, width as nat, "36"@, out@),
{
    format!("{:<w$}", text.cyan(), w = width as usize)
}

/// `Colorize::bold` and then `Colorize::blue` of the crate `colored`: as
/// [`paint_bold`], but in bold and blue.
#[verifier::external_body]
fn paint_bold_blue(text: &str, width: u16) -> (out: String)
    ensures
        painted(text@, width as nat, "1;34"@, out@),
{
    format!("{:<w$}", text.bold().blue(), w = width as usize)
}

/// `Colorize::bold` and then `Colorize::white` of the crate `colored`: as
/// [`paint_bold`], but in bold and white.
#[verifier::external_body]
fn paint_bold_white(text: &str, width: u16) -> (out: String)
    ensures
        painted(text@, width as nat, "1;37"@, out@),
{
    format!("{:<w$}", text.bold().white(), w = width as usize)
}

/// `Colorize::cyan` and then `Colorize::bold` of the crate `colored`: as
/// [`paint_bold`], but in bold and cyan.
#[verifier::external_body]
fn paint_bold_cyan(text: &str, width: u16) -> (out: String)
    ensures
        painted(text@, width as nat, "1;36"@, out@),
{
    format!("{:<w$}", text.cyan().bold(), w = width as usize)
}

/// Whether a text is what a span may come out as.
pub open spec fn span_painted(span: SpanModel, out: Seq<char>) -> bool {
    if span.style == Style::Plain {
        out == spec_pad_right(span.text, span.width)
    } else {
        painted(span.text, span.width, style_codes(span.style), out)
    }
}

/// A span as it comes out on the terminal.
pub fn render_text(text: &str, style: Style, width: u16) -> (out: String)
    ensures
        span_painted(SpanModel { text: text@, style, width: width as nat }, out@),
{
    match style {
        Style::Plain => pad_right(text, width as usize),
        Style::Bold => paint_bold(text, width),
        Style::Dimmed => paint_dimmed(text, width),
        Style::Cyan => paint_cyan(text, width),
        Style::BoldBlue => paint_bold_blue(text, width),
        Style::BoldWhite => paint_bold_white(text, width),
        Style::BoldCyan => paint_bold_cyan(text, width),
    }
}

/// The texts of a list one after the other.
pub open spec fn spec_concat(parts: Seq<Seq<char>>) -> Seq<char>
    decreases parts.len(),
{
    if parts.len() == 0 {
        Seq::empty()
    } else {
        spec_concat(parts.drop_last()) + parts.last()
    }
}

/// Whether each part is what the span in its place may come out as.
pub open spec fn spans_painted(spans: Seq<SpanModel>, parts: Seq<Seq<char>>) -> bool {
    &&& parts.len() == spans.len()
    &&& forall|i: int| 0 <= i < spans.len() ==> span_painted(#[trigger] spans[i], parts[i])
}

/// Whether a text is what a line may come out as: the spans one after the
/// other, and the whole in the style of the line.
pub open spec fn line_painted(line: LineLayout, out: Seq<char>) -> bool {
    exists|parts: Seq<Seq<char>>|
        #![trigger spans_painted(line.spans, parts)]
        spans_painted(line.spans, parts) && span_painted(
            SpanModel { text: spec_concat(parts), style: line.style, width: 0 },
            out,
        )
}

/// A line as it comes out on the terminal.
pub fn render(line: &Line) -> (out: String)
    ensures
        line_painted(line@, out@),
{
    let mut whole = String::new();
    let ghost model = line@.spans;
    let ghost mut parts: Seq<Seq<char>> = Seq::empty();
    let mut i: usize = 0;
    while i < line.spans.len()
        invariant
            model == line@.spans,
            i <= line.spans.len(),
            spans_painted(model.take(i as int), parts),
            whole@ == spec_concat(parts),
        decreases line.spans.len() - i,
    {
        let span = &line.spans[i];
        let part = render_text(&span.text, span.style, span.width);
        whole.append(&part);
        proof {
            let next = parts.push(part@);
            assert(next.drop_last() =~= parts);
            assert(model[i as int] == span@);
            assert forall|j: int| 0 <= j < i + 1 implies span_painted(
                #[trigger] model.take(i + 1)[j],
                next[j],
            ) by {
                if j < i {
                    assert(model.take(i as int)[j] == model.take(i + 1)[j]);
                }
            }
            parts = next;
        }
        i = i + 1;
    }
    assert(model.take(model.len() as int) =~= model);
    let out = render_text(&whole, line.style, 0);
    assert(spans_painted(line@.spans, parts));
    out
}

/// Whether each text is what the line in its place may come out as.
pub open spec fn lines_painted(lines: Seq<LineLayout>, out: Seq<Seq<char>>) -> bool {
    &&& out.len() == lines.len()
    &&& forall|i: int| 0 <= i < lines.len() ==> line_painted(#[trigger] lines[i], out[i])
}

/// Lines as they come out on the terminal.
pub fn render_all(lines: &Vec<Line>) -> (out: Vec<String>)
    ensures
        lines_painted(layouts(lines@), texts(out@)),
{
    let mut out: Vec<String> = Vec::new();
    let ghost model = layouts(lines@);
    let mut i: usize = 0;
    while i < lines.len()
        invariant
            model == layouts(lines@),
            i <= lines.len(),
            out.len() == i,
            forall|j: int| 0 <= j < i ==> line_painted(#[trigger] model[j], out@[j]@),
        decreases lines.len() - i,
    {
        out.push(render(&lines[i]));
        i = i + 1;
    }
    out
}

} // verus!
