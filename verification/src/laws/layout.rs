//! Laws of what is shown on the terminal.

use crate::laws::names::law_truncate;
use crate::laws::sequences::lemma_replace_absent;
use crate::style::{
    line_painted, lines_painted, opening, reopened, span_painted, spans_painted, spec_concat,
    style_codes, LineLayout, SpanModel, Style,
};
use crate::table::{
    body_line, border, cell_span, cell_spans, cells, column_width, column_widths, dashes,
    header_cells, header_line, lemma_column_width, spec_headers, spec_table,
    spec_truncate, RowModel,
};
use crate::text::{spec_decimal, spec_join, spec_pad_right};
use vstd::prelude::*;

verus! {

/// The text of a line without any styles.
pub open spec fn plain_text(line: LineLayout) -> Seq<char> {
    spec_concat(line.spans.map_values(|s: SpanModel| spec_pad_right(s.text, s.width)))
}

/// What a terminal shows of a text: all but the escape sequences, each of
/// which goes from an escape character to the next `m`. It may begin inside
/// such a sequence.
pub open spec fn visible(s: Seq<char>, inside: bool) -> Seq<char>
    decreases s.len(),
{
    if s.len() == 0 {
        Seq::empty()
    } else if inside {
        visible(s.skip(1), s[0] != 'm')
    } else if s[0] == '\u{1b}' {
        visible(s.skip(1), true)
    } else {
        seq![s[0]] + visible(s.skip(1), false)
    }
}

/// Whether a text ends inside an escape sequence.
pub open spec fn ends_inside(s: Seq<char>, inside: bool) -> bool
    decreases s.len(),
{
    if s.len() == 0 {
        inside
    } else if inside {
        ends_inside(s.skip(1), s[0] != 'm')
    } else {
        ends_inside(s.skip(1), s[0] == '\u{1b}')
    }
}

proof fn lemma_visible_concat(a: Seq<char>, b: Seq<char>, inside: bool)
    ensures
        visible(a + b, inside) == visible(a, inside) + visible(b, ends_inside(a, inside)),
        ends_inside(a + b, inside) == ends_inside(b, ends_inside(a, inside)),
    decreases a.len(),
{
    let s = a + b;
    if a.len() == 0 {
        assert(s =~= b);
        assert(visible(a, inside) + visible(b, inside) =~= visible(b, inside));
    } else {
        let rest = a.skip(1);
        assert(s.skip(1) =~= rest + b);
        if inside {
            lemma_visible_concat(rest, b, a[0] != 'm');
        } else if a[0] == '\u{1b}' {
            lemma_visible_concat(rest, b, true);
        } else {
            lemma_visible_concat(rest, b, false);
            assert(seq![a[0]] + (visible(rest, false) + visible(b, ends_inside(rest, false)))
                =~= seq![a[0]] + visible(rest, false) + visible(b, ends_inside(rest, false)));
        }
    }
}

proof fn lemma_visible_text(s: Seq<char>)
    requires
        !s.contains('\u{1b}'),
    ensures
        visible(s, false) == s,
        !ends_inside(s, false),
    decreases s.len(),
{
    if s.len() > 0 {
        let rest = s.skip(1);
        assert(s.contains(s[0]));
        assert forall|i: int| 0 <= i < rest.len() implies rest[i] != '\u{1b}' by {
            assert(s.contains(s[i + 1]));
        }
        lemma_visible_text(rest);
        assert(s =~= seq![s[0]] + rest);
    }
}

proof fn lemma_visible_inside(s: Seq<char>)
    requires
        s.len() > 0,
        s.last() == 'm',
        !s.drop_last().contains('m'),
    ensures
        visible(s, true) == Seq::<char>::empty(),
        !ends_inside(s, true),
    decreases s.len(),
{
    let rest = s.skip(1);
    if s.len() > 1 {
        assert(s.drop_last().contains(s.drop_last()[0]));
        assert(s[0] != 'm');
        assert forall|i: int| 0 <= i < rest.drop_last().len() implies rest.drop_last()[i]
            != 'm' by {
            assert(rest.drop_last()[i] == s.drop_last()[i + 1]);
            assert(s.drop_last().contains(s.drop_last()[i + 1]));
        }
        lemma_visible_inside(rest);
    } else {
        assert(visible(rest, false) =~= Seq::<char>::empty());
        assert(!ends_inside(rest, false));
    }
}

proof fn lemma_escape_invisible(s: Seq<char>)
    requires
        s.len() > 1,
        s[0] == '\u{1b}',
        s.last() == 'm',
        !s.drop_last().contains('m'),
    ensures
        visible(s, false) == Seq::<char>::empty(),
        visible(s, true) == Seq::<char>::empty(),
        !ends_inside(s, false),
        !ends_inside(s, true),
{
    let rest = s.skip(1);
    lemma_visible_inside(s);
    assert forall|i: int| 0 <= i < rest.drop_last().len() implies rest.drop_last()[i] != 'm' by {
        assert(rest.drop_last()[i] == s.drop_last()[i + 1]);
        assert(s.drop_last().contains(s.drop_last()[i + 1]));
    }
    lemma_visible_inside(rest);
}

proof fn lemma_reset_invisible(inside: bool)
    ensures
        visible("\u{1b}[0m"@, inside) == Seq::<char>::empty(),
        !ends_inside("\u{1b}[0m"@, inside),
{
    reveal_strlit("\u{1b}[0m");
    lemma_escape_invisible("\u{1b}[0m"@);
}

proof fn lemma_opening_invisible(codes: Seq<char>)
    requires
        !codes.contains('m'),
    ensures
        visible(opening(codes), false) == Seq::<char>::empty(),
        !ends_inside(opening(codes), false),
{
    reveal_strlit("\u{1b}[");
    reveal_strlit("m");
    let s = opening(codes);
    let body = s.drop_last();
    assert(body =~= "\u{1b}["@ + codes);
    assert forall|i: int| 0 <= i < body.len() implies body[i] != 'm' by {
        if i >= 2 {
            assert(codes.contains(codes[i - 2]));
        }
    }
    lemma_escape_invisible(s);
}

proof fn lemma_reopened_visible(s: Seq<char>, codes: Seq<char>, inside: bool)
    requires
        !codes.contains('m'),
    ensures
        visible(reopened(s, codes), inside) == visible(s, inside),
        ends_inside(reopened(s, codes), inside) == ends_inside(s, inside),
    decreases s.len(),
{
    reveal_strlit("\u{1b}[0m");
    let reset = "\u{1b}[0m"@;
    let r = reopened(s, codes);
    if s.len() >= 4 && s.take(4) == reset {
        let rest = s.skip(4);
        let tail = reopened(rest, codes);
        lemma_reset_invisible(inside);
        lemma_opening_invisible(codes);
        lemma_reopened_visible(rest, codes, false);
        assert(s =~= reset + rest);
        lemma_visible_concat(reset, rest, inside);
        assert(r =~= reset + (opening(codes) + tail));
        lemma_visible_concat(reset, opening(codes) + tail, inside);
        lemma_visible_concat(opening(codes), tail, false);
        assert(visible(r, inside) =~= visible(tail, false));
        assert(visible(s, inside) =~= visible(rest, false));
    } else if s.len() >= 4 {
        let rest = s.skip(1);
        assert(r.skip(1) =~= reopened(rest, codes));
        assert(r[0] == s[0]);
        if inside {
            lemma_reopened_visible(rest, codes, s[0] != 'm');
        } else {
            lemma_reopened_visible(rest, codes, s[0] == '\u{1b}');
        }
    }
}

proof fn lemma_codes(style: Style)
    ensures
        !style_codes(style).contains('m'),
{
    reveal_strlit("");
    reveal_strlit("1");
    reveal_strlit("2");
    reveal_strlit("36");
    reveal_strlit("1;34");
    reveal_strlit("1;37");
    reveal_strlit("1;36");
}

proof fn lemma_pad_plain(s: Seq<char>, width: nat)
    requires
        !s.contains('\u{1b}'),
    ensures
        !spec_pad_right(s, width).contains('\u{1b}'),
{
    let p = spec_pad_right(s, width);
    assert forall|i: int| 0 <= i < p.len() implies p[i] != '\u{1b}' by {
        if i < s.len() {
            assert(s.contains(s[i]));
        }
    }
}

proof fn lemma_span_visible(span: SpanModel, out: Seq<char>)
    requires
        !span.text.contains('\u{1b}'),
        span_painted(span, out),
    ensures
        visible(out, false) == spec_pad_right(span.text, span.width),
        !ends_inside(out, false),
{
    reveal_strlit("\u{1b}[0m");
    let codes = style_codes(span.style);
    let p = spec_pad_right(span.text, span.width);
    lemma_pad_plain(span.text, span.width);
    lemma_visible_text(p);
    if out != p {
        lemma_codes(span.style);
        lemma_replace_absent(span.text, "\u{1b}[0m"@, "\u{1b}[0m"@ + opening(codes));
        lemma_opening_invisible(codes);
        lemma_reset_invisible(false);
        assert(out == opening(codes) + p + "\u{1b}[0m"@);
        lemma_visible_concat(opening(codes), p, false);
        lemma_visible_concat(opening(codes) + p, "\u{1b}[0m"@, false);
        assert(visible(out, false) =~= p);
    }
}

proof fn lemma_spans_visible(spans: Seq<SpanModel>, parts: Seq<Seq<char>>)
    requires
        spans_painted(spans, parts),
        forall|i: int| 0 <= i < spans.len() ==> !(#[trigger] spans[i]).text.contains('\u{1b}'),
    ensures
        visible(spec_concat(parts), false) == plain_text(LineLayout { spans, style: Style::Plain }),
        !ends_inside(spec_concat(parts), false),
    decreases spans.len(),
{
    let shown = spans.map_values(|s: SpanModel| spec_pad_right(s.text, s.width));
    if spans.len() > 0 {
        let init = spans.drop_last();
        let before = parts.drop_last();
        assert forall|i: int| 0 <= i < init.len() implies span_painted(#[trigger] init[i], before[i])
            && !init[i].text.contains('\u{1b}') by {
            assert(init[i] == spans[i]);
        }
        lemma_spans_visible(init, before);
        let last = spans[spans.len() - 1];
        lemma_span_visible(last, parts.last());
        lemma_visible_concat(spec_concat(before), parts.last(), false);
        assert(shown.drop_last() =~= init.map_values(
            |s: SpanModel| spec_pad_right(s.text, s.width),
        ));
    }
}

/// Styles change nothing but escape sequences: however a line comes out, what
/// the terminal shows of it is its plain text.
pub proof fn law_styles_invisible(line: LineLayout, out: Seq<char>)
    requires
        line_painted(line, out),
        forall|i: int| 0 <= i < line.spans.len() ==> !(#[trigger] line.spans[i]).text.contains('\u{1b}'),
    ensures
        visible(out, false) == plain_text(line),
{
    let parts = choose|parts: Seq<Seq<char>>|
        #![trigger spans_painted(line.spans, parts)]
        spans_painted(line.spans, parts) && span_painted(
            SpanModel { text: spec_concat(parts), style: line.style, width: 0 },
            out,
        );
    let whole = spec_concat(parts);
    let codes = style_codes(line.style);
    lemma_spans_visible(line.spans, parts);
    if out != whole {
        let inner = reopened(whole, codes);
        lemma_codes(line.style);
        lemma_opening_invisible(codes);
        lemma_reopened_visible(whole, codes, false);
        lemma_reset_invisible(false);
        assert(spec_pad_right(inner, 0) == inner);
        lemma_visible_concat(opening(codes), inner, false);
        lemma_visible_concat(opening(codes) + inner, "\u{1b}[0m"@, false);
        assert(visible(out, false) =~= visible(whole, false));
    }
}

/// The same of a whole view, line by line.
pub proof fn law_view_shows_plain_text(lines: Seq<LineLayout>, out: Seq<Seq<char>>)
    requires
        lines_painted(lines, out),
        forall|i: int, k: int|
            0 <= i < lines.len() && 0 <= k < lines[i].spans.len()
                ==> !(#[trigger] lines[i].spans[k]).text.contains('\u{1b}'),
    ensures
        out.len() == lines.len(),
        forall|i: int|
            0 <= i < lines.len() ==> visible(out[i], false) == plain_text(#[trigger] lines[i]),
{
    assert forall|i: int| 0 <= i < lines.len() implies visible(out[i], false) == plain_text(
        #[trigger] lines[i],
    ) by {
        law_styles_invisible(lines[i], out[i]);
    }
}

/// The width of a table: its columns, and the bars and spaces around them.
pub open spec fn table_width(rows: Seq<RowModel>) -> nat {
    let w = column_widths(rows);
    w[0] + w[1] + w[2] + w[3] + w[4] + w[5] + 19
}

proof fn lemma_column_holds_header(rows: Seq<RowModel>, col: int)
    requires
        0 <= col < 6,
    ensures
        1 <= spec_headers()[col].len() <= column_width(rows, col),
    decreases rows.len(),
{
    reveal_strlit("#");
    reveal_strlit("Name");
    reveal_strlit("Organisation");
    reveal_strlit("Title/Role");
    reveal_strlit("Email");
    reveal_strlit("Phone");
    if rows.len() > 0 {
        lemma_column_holds_header(rows.drop_last(), col);
    }
}

proof fn lemma_six_joined(parts: Seq<Seq<char>>, sep: Seq<char>)
    requires
        parts.len() == 6,
        sep.len() == 1,
    ensures
        spec_join(parts, sep).len() == parts[0].len() + parts[1].len() + parts[2].len()
            + parts[3].len() + parts[4].len() + parts[5].len() + 5,
{
    reveal_with_fuel(spec_join, 7);
}

proof fn lemma_single(text: Seq<char>, style: Style)
    ensures
        plain_text(crate::show::line_of(text, style)) == text,
{
    let line = crate::show::line_of(text, style);
    let shown = line.spans.map_values(|s: SpanModel| spec_pad_right(s.text, s.width));
    assert(shown =~= seq![text]);
    assert(shown.drop_last() =~= Seq::<Seq<char>>::empty());
    assert(spec_concat(shown.drop_last()) =~= Seq::<char>::empty());
    assert(Seq::<char>::empty() + text =~= text);
}

proof fn lemma_border_width(
    rows: Seq<RowModel>,
    left: Seq<char>,
    middle: Seq<char>,
    right: Seq<char>,
)
    requires
        left.len() == 1,
        middle.len() == 1,
        right.len() == 1,
    ensures
        plain_text(border(column_widths(rows), left, middle, right)).len() == table_width(rows),
{
    let w = column_widths(rows);
    lemma_six_joined(dashes(w), middle);
    lemma_single(left + spec_join(dashes(w), middle) + right, Style::Cyan);
}

proof fn lemma_header_width(rows: Seq<RowModel>)
    ensures
        plain_text(header_line(column_widths(rows))).len() == table_width(rows),
{
    reveal_strlit("│");
    reveal_strlit(" ");
    let w = column_widths(rows);
    let parts = header_cells(w);
    assert forall|i: int| 0 <= i < 6 implies (#[trigger] parts[i]).len() == w[i] + 2 by {
        lemma_column_holds_header(rows, i);
    }
    lemma_six_joined(parts, "│"@);
    lemma_single("│"@ + spec_join(parts, "│"@) + "│"@, Style::BoldCyan);
}

proof fn lemma_cells_width(rows: Seq<RowModel>, texts: Seq<Seq<char>>, cols: nat)
    requires
        cols <= 6,
        texts.len() == 6,
    ensures
        ({
            let w = column_widths(rows);
            let spans = cell_spans(texts, w, cols);
            plain_text(LineLayout { spans, style: Style::Plain }).len() == (if cols > 0 {
                w[0]
            } else {
                0
            }) + (if cols > 1 {
                w[1]
            } else {
                0
            }) + (if cols > 2 {
                w[2]
            } else {
                0
            }) + (if cols > 3 {
                w[3]
            } else {
                0
            }) + (if cols > 4 {
                w[4]
            } else {
                0
            }) + (if cols > 5 {
                w[5]
            } else {
                0
            }) + 3 * cols
        }),
    decreases cols,
{
    reveal_strlit("│ ");
    reveal_strlit(" ");
    let w = column_widths(rows);
    let pad = |s: SpanModel| spec_pad_right(s.text, s.width);
    if cols > 0 {
        let col = cols - 1;
        let before = cell_spans(texts, w, col as nat);
        let three = seq![
            crate::show::span_of("│ "@, Style::Plain),
            cell_span(texts[col], w[col], col),
            crate::show::span_of(" "@, Style::Plain),
        ];
        let all = before + three;
        lemma_cells_width(rows, texts, col as nat);
        lemma_column_holds_header(rows, col);
        law_truncate(texts[col], w[col]);
        let shown = all.map_values(pad);
        let a = shown.drop_last();
        let b = a.drop_last();
        assert(b.drop_last() =~= before.map_values(pad));
        assert(shown.last() == " "@);
        assert(a.last().len() == w[col]);
        assert(b.last() == "│ "@);
        assert(spec_concat(a) == spec_concat(b) + a.last());
        assert(spec_concat(b) == spec_concat(b.drop_last()) + b.last());
        assert(spec_concat(shown).len() == spec_concat(b.drop_last()).len() + 2 + w[col] + 1);
        assert(plain_text(LineLayout { spans: all, style: Style::Plain }) == spec_concat(shown));
    }
}

proof fn lemma_body_width(rows: Seq<RowModel>, i: int)
    requires
        0 <= i < rows.len(),
    ensures
        plain_text(body_line(rows[i], i as nat, column_widths(rows))).len() == table_width(rows),
{
    reveal_strlit("│");
    let w = column_widths(rows);
    let texts = cells(rows[i], i as nat);
    let inner = cell_spans(texts, w, 6);
    let bar = crate::show::span_of("│"@, Style::Plain);
    let pad = |s: SpanModel| spec_pad_right(s.text, s.width);
    lemma_cells_width(rows, texts, 6);
    assert(inner.push(bar).map_values(pad).drop_last() =~= inner.map_values(pad));
    assert(inner.push(bar).map_values(pad).last() == "│"@);
}

/// The lines of a table are aligned: all but the line below it are equally
/// wide, and no table is wider than 149 columns.
pub proof fn law_table_aligned(rows: Seq<RowModel>)
    ensures
        spec_table(rows).len() == rows.len() + 5,
        forall|i: int|
            0 <= i < rows.len() + 4 ==> plain_text(#[trigger] spec_table(rows)[i]).len()
                == table_width(rows),
        table_width(rows) <= 149,
{
    reveal_strlit("┌");
    reveal_strlit("┬");
    reveal_strlit("┐");
    reveal_strlit("├");
    reveal_strlit("┼");
    reveal_strlit("┤");
    reveal_strlit("└");
    reveal_strlit("┴");
    reveal_strlit("┘");
    let table = spec_table(rows);
    let w = column_widths(rows);
    lemma_border_width(rows, "┌"@, "┬"@, "┐"@);
    lemma_border_width(rows, "├"@, "┼"@, "┤"@);
    lemma_border_width(rows, "└"@, "┴"@, "┘"@);
    lemma_header_width(rows);
    assert forall|i: int| 0 <= i < rows.len() + 4 implies plain_text(#[trigger] table[i]).len()
        == table_width(rows) by {
        if 3 <= i < rows.len() + 3 {
            lemma_body_width(rows, i - 3);
            assert(table[i] == body_line(rows[i - 3], (i - 3) as nat, w));
        }
    }
    lemma_column_width(rows, 0);
    lemma_column_width(rows, 1);
    lemma_column_width(rows, 2);
    lemma_column_width(rows, 3);
    lemma_column_width(rows, 4);
    lemma_column_width(rows, 5);
}

/// Whether no cell of a row holds an escape character.
pub open spec fn row_is_plain(row: RowModel) -> bool {
    &&& !row.name.contains('\u{1b}')
    &&& !row.org.contains('\u{1b}')
    &&& !row.title.contains('\u{1b}')
    &&& !row.email.contains('\u{1b}')
    &&& !row.phone.contains('\u{1b}')
}

/// Whether no span of a line holds an escape character.
spec fn line_is_plain(line: LineLayout) -> bool {
    forall|k: int| 0 <= k < line.spans.len() ==> !(#[trigger] line.spans[k]).text.contains('\u{1b}')
}

proof fn lemma_decimal_plain(n: nat)
    ensures
        !spec_decimal(n).contains('\u{1b}'),
    decreases n,
{
    if n >= 10 {
        lemma_decimal_plain(n / 10);
        let digits = spec_decimal(n);
        let init = spec_decimal(n / 10);
        assert forall|i: int| 0 <= i < digits.len() implies digits[i] != '\u{1b}' by {
            if i < init.len() {
                assert(init.contains(init[i]));
            }
        }
    }
}

proof fn lemma_truncate_plain(s: Seq<char>, max: nat)
    requires
        !s.contains('\u{1b}'),
    ensures
        !spec_truncate(s, max).contains('\u{1b}'),
{
    reveal_strlit("…");
    let t = spec_truncate(s, max);
    assert forall|i: int| 0 <= i < t.len() implies t[i] != '\u{1b}' by {
        if i < s.len() {
            assert(s.contains(s[i]));
        }
    }
}

proof fn lemma_concat_plain(a: Seq<char>, b: Seq<char>)
    requires
        !a.contains('\u{1b}'),
        !b.contains('\u{1b}'),
    ensures
        !(a + b).contains('\u{1b}'),
{
    assert forall|i: int| 0 <= i < (a + b).len() implies (a + b)[i] != '\u{1b}' by {
        if i < a.len() {
            assert(a.contains(a[i]));
        } else {
            assert(b.contains(b[i - a.len()]));
        }
    }
}

proof fn lemma_join_plain(parts: Seq<Seq<char>>, sep: Seq<char>)
    requires
        !sep.contains('\u{1b}'),
        forall|i: int| 0 <= i < parts.len() ==> !(#[trigger] parts[i]).contains('\u{1b}'),
    ensures
        !spec_join(parts, sep).contains('\u{1b}'),
    decreases parts.len(),
{
    if parts.len() > 1 {
        let init = parts.drop_last();
        assert forall|i: int| 0 <= i < init.len() implies !(#[trigger] init[i]).contains('\u{1b}') by {
            assert(init[i] == parts[i]);
        }
        lemma_join_plain(init, sep);
        assert(!parts[parts.len() - 1].contains('\u{1b}'));
        lemma_concat_plain(spec_join(init, sep), sep);
        lemma_concat_plain(spec_join(init, sep) + sep, parts.last());
    }
}

proof fn lemma_border_plain(
    widths: Seq<nat>,
    left: Seq<char>,
    middle: Seq<char>,
    right: Seq<char>,
)
    requires
        !left.contains('\u{1b}'),
        !middle.contains('\u{1b}'),
        !right.contains('\u{1b}'),
    ensures
        line_is_plain(border(widths, left, middle, right)),
{
    let parts = dashes(widths);
    assert forall|i: int| 0 <= i < parts.len() implies !(#[trigger] parts[i]).contains('\u{1b}') by {
    }
    lemma_join_plain(parts, middle);
    lemma_concat_plain(left, spec_join(parts, middle));
    lemma_concat_plain(left + spec_join(parts, middle), right);
}

proof fn lemma_header_plain(widths: Seq<nat>)
    ensures
        line_is_plain(header_line(widths)),
{
    reveal_strlit("│");
    reveal_strlit(" ");
    reveal_strlit("#");
    reveal_strlit("Name");
    reveal_strlit("Organisation");
    reveal_strlit("Title/Role");
    reveal_strlit("Email");
    reveal_strlit("Phone");
    let parts = header_cells(widths);
    assert forall|i: int| 0 <= i < parts.len() implies !(#[trigger] parts[i]).contains('\u{1b}') by {
        let head = spec_headers()[i];
        assert(!head.contains('\u{1b}'));
        lemma_pad_plain(head, widths[i]);
        lemma_concat_plain(" "@, spec_pad_right(head, widths[i]));
        lemma_concat_plain(" "@ + spec_pad_right(head, widths[i]), " "@);
    }
    lemma_join_plain(parts, "│"@);
    lemma_concat_plain("│"@, spec_join(parts, "│"@));
    lemma_concat_plain("│"@ + spec_join(parts, "│"@), "│"@);
}

proof fn lemma_cells_plain(texts: Seq<Seq<char>>, widths: Seq<nat>, cols: nat)
    requires
        cols <= texts.len(),
        forall|i: int| 0 <= i < texts.len() ==> !(#[trigger] texts[i]).contains('\u{1b}'),
    ensures
        forall|k: int|
            0 <= k < cell_spans(texts, widths, cols).len() ==> !(#[trigger] cell_spans(
                texts,
                widths,
                cols,
            )[k]).text.contains('\u{1b}'),
    decreases cols,
{
    reveal_strlit("│ ");
    reveal_strlit(" ");
    if cols > 0 {
        let col = cols - 1;
        let before = cell_spans(texts, widths, col as nat);
        let all = cell_spans(texts, widths, cols);
        lemma_cells_plain(texts, widths, col as nat);
        lemma_truncate_plain(texts[col], widths[col]);
        assert forall|k: int| 0 <= k < all.len() implies !(#[trigger] all[k]).text.contains(
            '\u{1b}',
        ) by {
            if k < before.len() {
                assert(all[k] == before[k]);
            }
        }
    }
}

proof fn lemma_body_plain(row: RowModel, index: nat, widths: Seq<nat>)
    requires
        row_is_plain(row),
    ensures
        line_is_plain(body_line(row, index, widths)),
{
    reveal_strlit("│");
    lemma_decimal_plain(index + 1);
    let texts = cells(row, index);
    lemma_cells_plain(texts, widths, 6);
    let inner = cell_spans(texts, widths, 6);
    let line = body_line(row, index, widths);
    assert forall|k: int| 0 <= k < line.spans.len() implies !(
    #[trigger] line.spans[k]).text.contains('\u{1b}') by {
        if k < inner.len() {
            assert(line.spans[k] == inner[k]);
        }
    }
}

/// However a table comes out, its lines above the last are equally wide on
/// the terminal.
pub proof fn law_shown_table_aligned(rows: Seq<RowModel>, out: Seq<Seq<char>>)
    requires
        lines_painted(spec_table(rows), out),
        forall|i: int| 0 <= i < rows.len() ==> row_is_plain(#[trigger] rows[i]),
    ensures
        out.len() == rows.len() + 5,
        forall|i: int|
            0 <= i < rows.len() + 4 ==> visible(#[trigger] out[i], false).len() == table_width(
                rows,
            ),
{
    reveal_strlit("┌");
    reveal_strlit("┬");
    reveal_strlit("┐");
    reveal_strlit("├");
    reveal_strlit("┼");
    reveal_strlit("┤");
    reveal_strlit("└");
    reveal_strlit("┴");
    reveal_strlit("┘");
    let table = spec_table(rows);
    let w = column_widths(rows);
    law_table_aligned(rows);
    lemma_border_plain(w, "┌"@, "┬"@, "┐"@);
    lemma_header_plain(w);
    lemma_border_plain(w, "├"@, "┼"@, "┤"@);
    lemma_border_plain(w, "└"@, "┴"@, "┘"@);
    assert forall|i: int| 0 <= i < rows.len() + 4 implies visible(#[trigger] out[i], false).len()
        == table_width(rows) by {
        if 3 <= i < rows.len() + 3 {
            lemma_body_plain(rows[i - 3], (i - 3) as nat, w);
            assert(table[i] == body_line(rows[i - 3], (i - 3) as nat, w));
        }
        assert(line_is_plain(table[i]));
        law_styles_invisible(table[i], out[i]);
    }
}

} // verus!
