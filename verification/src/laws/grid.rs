//! Laws of the table, told by the text of its lines.

use crate::laws::layout::plain_text;
use crate::style::{spec_concat, LineLayout, SpanModel, Style};
use crate::table::{
    body_line, border, cell_spans, cells, column_width, column_widths, dashes, header_cells,
    header_line, spec_caps, spec_headers, spec_table, spec_truncate, RowModel,
};
use crate::text::{spec_decimal, spec_join, spec_pad_right, spec_repeat};
use vstd::prelude::*;

verus! {

/// The cells of a row: its number, counted from one, the name, the
/// organisation, the title or role, and where the contact can be reached.
pub open spec fn cell_text(row: RowModel, index: int, col: int) -> Seq<char> {
    if col == 0 {
        spec_decimal((index + 1) as nat)
    } else if col == 1 {
        row.name
    } else if col == 2 {
        row.org
    } else if col == 3 {
        row.title
    } else if col == 4 {
        row.email
    } else {
        row.phone
    }
}

/// The heading of a column.
pub open spec fn heading(col: int) -> Seq<char> {
    if col == 0 {
        "#"@
    } else if col == 1 {
        "Name"@
    } else if col == 2 {
        "Organisation"@
    } else if col == 3 {
        "Title/Role"@
    } else if col == 4 {
        "Email"@
    } else {
        "Phone"@
    }
}

/// The greatest width of a column.
pub open spec fn limit(col: int) -> nat {
    if col == 0 {
        4
    } else if col == 1 {
        28
    } else if col == 2 {
        24
    } else if col == 3 {
        22
    } else if col == 4 {
        32
    } else {
        20
    }
}

/// Whether a column of a width takes a text: whole, or else as much of it as
/// the greatest width allows.
pub open spec fn takes(width: nat, col: int, text: Seq<char>) -> bool {
    width >= text.len() || width == limit(col)
}

/// A column is no wider than its greatest width, takes its heading and all its
/// cells, and is no wider than the widest of them.
pub proof fn law_column_width(rows: Seq<RowModel>, col: int)
    requires
        0 <= col < 6,
    ensures
        ({
            let w = column_widths(rows)[col];
            &&& w <= limit(col)
            &&& takes(w, col, heading(col))
            &&& forall|i: int|
                0 <= i < rows.len() ==> takes(w, col, cell_text(#[trigger] rows[i], i, col))
            &&& w <= heading(col).len() || exists|i: int|
                0 <= i < rows.len() && w <= cell_text(#[trigger] rows[i], i, col).len()
        }),
{
    lemma_width(rows, col);
}

proof fn lemma_width(rows: Seq<RowModel>, col: int)
    requires
        0 <= col < 6,
    ensures
        ({
            let w = column_width(rows, col);
            &&& w <= limit(col)
            &&& takes(w, col, heading(col))
            &&& forall|i: int|
                0 <= i < rows.len() ==> takes(w, col, cell_text(#[trigger] rows[i], i, col))
            &&& w <= heading(col).len() || exists|i: int|
                0 <= i < rows.len() && w <= cell_text(#[trigger] rows[i], i, col).len()
        }),
    decreases rows.len(),
{
    let w = column_width(rows, col);
    assert(spec_caps()[col] == limit(col));
    assert(spec_headers()[col] == heading(col));
    if rows.len() > 0 {
        let init = rows.drop_last();
        let n = rows.len() - 1;
        let before = column_width(init, col);
        lemma_width(init, col);
        assert(cells(rows.last(), n as nat)[col] == cell_text(rows[n], n, col));
        assert forall|i: int| 0 <= i < rows.len() implies takes(
            w,
            col,
            cell_text(#[trigger] rows[i], i, col),
        ) by {
            if i < n {
                assert(init[i] == rows[i]);
            }
        }
        if w > heading(col).len() {
            if w == before {
                let i = choose|i: int|
                    0 <= i < init.len() && before <= cell_text(#[trigger] init[i], i, col).len();
                assert(w <= cell_text(rows[i], i, col).len());
            } else {
                assert(w <= cell_text(rows[n], n, col).len());
            }
        }
    }
}

/// Six texts with a separator between them.
pub open spec fn six(
    f: spec_fn(int) -> Seq<char>,
    sep: Seq<char>,
) -> Seq<char> {
    f(0) + sep + f(1) + sep + f(2) + sep + f(3) + sep + f(4) + sep + f(5)
}

proof fn lemma_six(parts: Seq<Seq<char>>, sep: Seq<char>)
    requires
        parts.len() == 6,
    ensures
        spec_join(parts, sep) == six(|i: int| parts[i], sep),
{
    reveal_with_fuel(spec_join, 7);
}

proof fn lemma_one(line: LineLayout)
    requires
        line.spans.len() == 1,
        line.spans[0].width == 0,
    ensures
        plain_text(line) == line.spans[0].text,
{
    let shown = line.spans.map_values(|s: SpanModel| spec_pad_right(s.text, s.width));
    assert(shown =~= seq![line.spans[0].text]);
    assert(spec_concat(shown.drop_last()) =~= Seq::<char>::empty());
    assert(Seq::<char>::empty() + line.spans[0].text =~= line.spans[0].text);
}

/// The borders of a table have as many dashes for a column as it is wide, and
/// two more, with corners and crossings between them. They are cyan.
pub proof fn law_table_borders(rows: Seq<RowModel>)
    ensures
        ({
            let table = spec_table(rows);
            let w = column_widths(rows);
            let n = rows.len() as int;
            let bar = |i: int| spec_repeat('─', w[i] + 2);
            &&& plain_text(table[0]) == "┌"@ + six(bar, "┬"@) + "┐"@
            &&& plain_text(table[2]) == "├"@ + six(bar, "┼"@) + "┤"@
            &&& plain_text(table[n + 3]) == "└"@ + six(bar, "┴"@) + "┘"@
            &&& table[0].style == Style::Cyan && table[2].style == Style::Cyan
            &&& table[n + 3].style == Style::Cyan
        }),
{
    let w = column_widths(rows);
    let parts = dashes(w);
    let bar = |i: int| spec_repeat('─', w[i] + 2);
    lemma_six(parts, "┬"@);
    lemma_six(parts, "┼"@);
    lemma_six(parts, "┴"@);
    let f = |i: int| parts[i];
    assert(forall|i: int| 0 <= i < 6 ==> #[trigger] f(i) == bar(i));
    assert(f(0) == bar(0) && f(1) == bar(1) && f(2) == bar(2) && f(3) == bar(3) && f(4) == bar(4)
        && f(5) == bar(5));
    lemma_one(border(w, "┌"@, "┬"@, "┐"@));
    lemma_one(border(w, "├"@, "┼"@, "┤"@));
    lemma_one(border(w, "└"@, "┴"@, "┘"@));
    let table = spec_table(rows);
    let n = rows.len() as int;
    assert(table[n + 3] == border(w, "└"@, "┴"@, "┘"@));
}

/// The second line of a table has the headings, each filled up to the width of
/// its column. It is bold and cyan.
pub proof fn law_table_headings(rows: Seq<RowModel>)
    ensures
        ({
            let line = spec_table(rows)[1];
            let w = column_widths(rows);
            let cell = |i: int| " "@ + spec_pad_right(heading(i), w[i]) + " "@;
            &&& plain_text(line) == "│"@ + six(cell, "│"@) + "│"@
            &&& line.style == Style::BoldCyan
        }),
{
    let w = column_widths(rows);
    let parts = header_cells(w);
    let cell = |i: int| " "@ + spec_pad_right(heading(i), w[i]) + " "@;
    lemma_six(parts, "│"@);
    let f = |i: int| parts[i];
    assert(f(0) == cell(0) && f(1) == cell(1) && f(2) == cell(2) && f(3) == cell(3) && f(4)
        == cell(4) && f(5) == cell(5));
    lemma_one(header_line(w));
}

/// The line below a table tells how many contacts there are. It is dimmed.
pub proof fn law_table_footer(rows: Seq<RowModel>)
    ensures
        ({
            let line = spec_table(rows)[rows.len() as int + 4];
            let end = if rows.len() == 1 {
                ""@
            } else {
                "s"@
            };
            plain_text(line) == "  "@ + spec_decimal(rows.len()) + " contact"@ + end && line.style
                == Style::Dimmed
        }),
{
    let table = spec_table(rows);
    let line = crate::table::footer(rows.len());
    assert(table[rows.len() as int + 4] == line);
    lemma_one(line);
}

proof fn lemma_cells(row: RowModel, index: nat, w: Seq<nat>)
    ensures
        ({
            let spans = cell_spans(cells(row, index), w, 6);
            &&& spans.len() == 18
            &&& forall|col: int|
                0 <= col < 6 ==> {
                    &&& (#[trigger] spans[3 * col + 1]).text == spec_truncate(
                        cell_text(row, index as int, col),
                        w[col],
                    )
                    &&& spans[3 * col + 1].width == w[col]
                }
        }),
{
    reveal_with_fuel(cell_spans, 7);
    let texts = cells(row, index);
    assert(texts[0] == cell_text(row, index as int, 0));
    assert(texts[1] == cell_text(row, index as int, 1));
    assert(texts[2] == cell_text(row, index as int, 2));
    assert(texts[3] == cell_text(row, index as int, 3));
    assert(texts[4] == cell_text(row, index as int, 4));
    assert(texts[5] == cell_text(row, index as int, 5));
}

/// Each row has its line, in its place: its cells, each cut to the width of
/// its column and filled up to it, behind bars. The number is dimmed, the name
/// is bold, and all else is plain.
pub proof fn law_table_row(rows: Seq<RowModel>, i: int, col: int)
    requires
        0 <= i < rows.len(),
        0 <= col < 6,
    ensures
        ({
            let line = spec_table(rows)[i + 3];
            let w = column_widths(rows);
            let at = 3 * col;
            &&& line.style == Style::Plain
            &&& line.spans.len() == 19
            &&& line.spans[at] == (SpanModel { text: "│ "@, style: Style::Plain, width: 0 })
            &&& line.spans[at + 1] == (SpanModel {
                text: spec_truncate(cell_text(rows[i], i, col), w[col]),
                style: if col == 0 {
                    Style::Dimmed
                } else if col == 1 {
                    Style::Bold
                } else {
                    Style::Plain
                },
                width: w[col],
            })
            &&& line.spans[at + 2] == (SpanModel { text: " "@, style: Style::Plain, width: 0 })
            &&& line.spans[18] == (SpanModel { text: "│"@, style: Style::Plain, width: 0 })
        }),
{
    let w = column_widths(rows);
    let line = body_line(rows[i], i as nat, w);
    assert(spec_table(rows)[i + 3] == line);
    reveal_with_fuel(cell_spans, 7);
    lemma_cells(rows[i], i as nat, w);
    assert(cells(rows[i], i as nat)[col] == cell_text(rows[i], i, col));
}

} // verus!
