//! What is shown where colours are switched off, and CSV.

use vcard_viewer::card::{Property, VCard};
use vcard_viewer::cli::report;
use vcard_viewer::csv::{csv_escape, output_csv, record};
use vcard_viewer::show::{card_view, display_card, print_row, row};
use vcard_viewer::style::{render_text, Style};
use vcard_viewer::table::{display_table, table, TableRow};

fn prop(name: &str, value: &str, params: &[(&str, &str)]) -> Property {
    Property {
        name: name.to_string(),
        params: params.iter().map(|(k, v)| (k.to_string(), v.to_string())).collect(),
        value: value.to_string(),
    }
}

fn card(properties: Vec<Property>) -> VCard {
    VCard { properties }
}

fn full_card() -> VCard {
    card(vec![
        prop("FN", "Jane Doe", &[]),
        prop("ORG", "ACME;R&D", &[]),
        prop("TITLE", "Dr.", &[]),
        prop("ROLE", "Boss", &[]),
        prop("EMAIL", "j@d.com", &[("TYPE", "WORK")]),
        prop("EMAIL", "", &[]),
        prop("EMAIL", "jane@d.com", &[]),
        prop("TEL", "1", &[("TYPE", "CELL")]),
        prop("ADR", ";;1 Main St;Town;;;", &[("TYPE", "HOME")]),
        prop("BDAY", "1990-01-01", &[]),
        prop("ANNIVERSARY", "2010-01-01", &[]),
        prop("URL", "http://d.com", &[]),
        prop("IMPP", "xmpp:j", &[]),
        prop("NOTE", "one\\ntwo", &[]),
        prop("PHOTO", "...", &[]),
    ])
}

fn switch_off() {
    colored::control::set_override(false);
}

#[test]
fn plain_spans_are_padded() {
    switch_off();
    for style in [
        Style::Plain,
        Style::Bold,
        Style::Dimmed,
        Style::Cyan,
        Style::BoldBlue,
        Style::BoldWhite,
        Style::BoldCyan,
    ] {
        assert_eq!(render_text("né", style, 4), "né  ");
        assert_eq!(render_text("abc", style, 2), "abc");
    }
}

#[test]
fn a_row_has_a_line_for_each_line_of_the_value() {
    switch_off();
    assert_eq!(
        print_row("Note", "one\ntwo\r\nthree", None),
        vec![
            "            Note  one".to_string(),
            "                  two".to_string(),
            "                  three".to_string(),
        ]
    );
    assert_eq!(print_row("Email", "a@b.c", Some("WORK")), vec!["           Email  a@b.c  [work]"]);
    assert_eq!(print_row("Note", "\n", None), vec!["            Note  "]);
    assert!(print_row("Note", "", None).is_empty());
    assert!(row("Note", "", Some("X")).is_empty());
    assert_eq!(row("Email", "a", Some("X"))[0].spans.len(), 4);
}

#[test]
fn a_card_shows_all_fields_in_order() {
    switch_off();
    let shown = display_card(&full_card(), 0, 1);
    let expected = vec![
        format!("──  Contact  {}", "─".repeat(39)),
        "  Jane Doe".to_string(),
        "".to_string(),
        "    Organisation  ACME · R&D".to_string(),
        "           Title  Dr.".to_string(),
        "            Role  Boss".to_string(),
        "           Email  j@d.com  [work]".to_string(),
        "           Email  jane@d.com".to_string(),
        "           Phone  1  [cell]".to_string(),
        "         Address  1 Main St, Town  [home]".to_string(),
        "        Birthday  1990-01-01".to_string(),
        "     Anniversary  2010-01-01".to_string(),
        "         Website  http://d.com".to_string(),
        "              IM  xmpp:j".to_string(),
        "            Note  one".to_string(),
        "                  two".to_string(),
        "           Photo  (embedded)".to_string(),
        "─".repeat(52),
    ];
    assert_eq!(shown, expected);
    assert_eq!(card_view(&full_card(), 0, 1).len(), expected.len());
}

#[test]
fn an_empty_card_shows_only_its_rules() {
    switch_off();
    assert_eq!(
        display_card(&card(vec![]), 1, 3),
        vec![format!("──  Contact 2/3   {}", "─".repeat(34)), "─".repeat(52)]
    );
    assert_eq!(
        display_card(&card(vec![]), usize::MAX, 1),
        vec![format!("──  Contact  {}", "─".repeat(39)), "─".repeat(52)]
    );
}

#[test]
fn a_long_title_leaves_no_fill() {
    switch_off();
    let shown = display_card(&card(vec![]), usize::MAX - 1, usize::MAX);
    let number = usize::MAX.to_string();
    let title = format!(" Contact {}/{}  ", number, number);
    let fill = 52usize.saturating_sub(title.len() + 4);
    assert_eq!(shown[0], format!("── {} {}", title, "─".repeat(fill)));
}

#[test]
fn a_table_fits_its_cells() {
    switch_off();
    let shown = display_table(&[full_card(), card(vec![])]);
    assert_eq!(
        shown,
        vec![
            "┌───┬──────────┬──────────────┬────────────┬─────────┬───────┐".to_string(),
            "│ # │ Name     │ Organisation │ Title/Role │ Email   │ Phone │".to_string(),
            "├───┼──────────┼──────────────┼────────────┼─────────┼───────┤".to_string(),
            "│ 1 │ Jane Doe │ ACME         │ Dr.        │ j@d.com │ 1     │".to_string(),
            "│ 2 │          │              │            │         │       │".to_string(),
            "└───┴──────────┴──────────────┴────────────┴─────────┴───────┘".to_string(),
            "  2 contacts".to_string(),
        ]
    );
}

#[test]
fn a_table_is_never_wider_than_its_columns_allow() {
    switch_off();
    let long = "x".repeat(50);
    let wide = || TableRow {
        name: long.clone(),
        org: long.clone(),
        title: long.clone(),
        email: long.clone(),
        phone: long.clone(),
    };
    let mut rows: Vec<TableRow> = Vec::new();
    let mut cards: Vec<VCard> = Vec::new();
    let mut i: usize = 0;
    while i < 1001 {
        rows.push(wide());
        cards.push(card(vec![
            prop("FN", &long, &[]),
            prop("ORG", &long, &[]),
            prop("TITLE", &long, &[]),
            prop("EMAIL", &long, &[]),
            prop("TEL", &long, &[]),
        ]));
        i += 1;
    }
    assert_eq!(table(&rows).len(), 1006);
    let shown = display_table(&cards);
    assert_eq!(shown.len(), 1006);
    for line in &shown[..1005] {
        assert_eq!(line.chars().count(), 149);
    }
    assert!(shown[3].contains(&format!("│ {}… │", "x".repeat(27))));
    assert_eq!(shown[1005], "  1001 contacts");
}

#[test]
fn csv_fields_are_quoted() {
    assert_eq!(csv_escape(""), "\"\"");
    assert_eq!(csv_escape("a\"b"), "\"a\"\"b\"");
    assert_eq!(
        record(&vec!["a".to_string(), "b,\"c\"\n".to_string()]),
        "\"a\",\"b,\"\"c\"\"\n\""
    );
    assert_eq!(record(&vec![]), "");
}

#[test]
fn csv_has_a_record_for_each_card() {
    let out = output_csv(&[("a.vcf".to_string(), full_card())]);
    let header = "\"source\",\"name\",\"organisation\",\"title\",\"role\",\"email\",\"phone\",\"address\",\"birthday\",\"anniversary\",\"website\",\"note\"";
    let record = "\"a.vcf\",\"Jane Doe\",\"ACME · R&D\",\"Dr.\",\"Boss\",\"j@d.com | jane@d.com\",\"1\",\"1 Main St, Town\",\"1990-01-01\",\"2010-01-01\",\"http://d.com\",\"one\ntwo\"";
    assert_eq!(out, format!("{}\r\n{}\r\n", header, record));
    assert_eq!(output_csv(&[]), format!("{}\r\n", header));
}

fn read_csv(text: &str) -> Vec<Vec<String>> {
    let mut rows: Vec<Vec<String>> = Vec::new();
    let mut row: Vec<String> = Vec::new();
    let mut field = String::new();
    let mut quoted = false;
    let mut chars = text.chars().peekable();
    while let Some(c) = chars.next() {
        if quoted && c == '"' && chars.peek() == Some(&'"') {
            chars.next();
            field.push('"');
        } else if c == '"' {
            quoted = !quoted;
        } else if !quoted && c == ',' {
            row.push(std::mem::take(&mut field));
        } else if !quoted && c == '\r' && chars.peek() == Some(&'\n') {
            chars.next();
            row.push(std::mem::take(&mut field));
            rows.push(std::mem::take(&mut row));
        } else {
            field.push(c);
        }
    }
    rows
}

#[test]
fn csv_output_reads_back() {
    let odd = "a \"b\", c\nd";
    let cards = vec![
        ("one \"1\".vcf".to_string(), card(vec![prop("FN", odd, &[]), prop("NOTE", "\"", &[])])),
        ("two.vcf".to_string(), card(vec![])),
    ];
    let rows = read_csv(&output_csv(&cards));
    assert_eq!(rows.len(), 3);
    assert!(rows.iter().all(|r| r.len() == 12));
    assert_eq!(rows[0][0], "source");
    assert_eq!(rows[1][0], "one \"1\".vcf");
    assert_eq!(rows[1][1], odd);
    assert_eq!(rows[1][11], "\"");
    assert_eq!(rows[2][0], "two.vcf");
    assert!(rows[2][1..].iter().all(|f| f.is_empty()));
}

#[test]
fn a_report_is_csv_a_table_or_cards() {
    switch_off();
    let cards = vec![
        ("a.vcf".to_string(), full_card()),
        ("a.vcf".to_string(), card(vec![])),
        ("b.vcf".to_string(), card(vec![])),
    ];
    assert_eq!(report(&cards, true, false), output_csv(&cards));
    assert_eq!(report(&cards, true, true), output_csv(&cards));

    let lines = |shown: Vec<String>| shown.iter().map(|l| format!("{}\n", l)).collect::<String>();
    let dir = report(&cards, false, true);
    let table = lines(display_table(&[full_card(), card(vec![]), card(vec![])]));
    assert_eq!(dir, format!("  3 vCards from 2 files\n\n{}", table));
    let one = report(&cards[2..], false, true);
    assert!(one.starts_with("  1 vCard from 1 file\n\n"));
    assert!(one.ends_with("\n  1 contact\n"));

    let mut expected = display_card(&full_card(), 0, 3);
    expected.push(String::new());
    expected.extend(display_card(&card(vec![]), 1, 3));
    expected.push(String::new());
    expected.extend(display_card(&card(vec![]), 2, 3));
    assert_eq!(report(&cards, false, false), lines(expected));
    assert_eq!(report(&[], false, false), "");
}
