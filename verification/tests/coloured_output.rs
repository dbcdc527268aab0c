//! What is shown where colours are switched on.

use vcard_viewer::card::{Property, VCard};
use vcard_viewer::cli::report;
use vcard_viewer::show::{display_card, print_row};
use vcard_viewer::style::{render, render_all, render_text, Line, Span, Style};
use vcard_viewer::table::display_table;

fn prop(name: &str, value: &str) -> Property {
    Property { name: name.to_string(), params: vec![], value: value.to_string() }
}

fn alice() -> VCard {
    VCard { properties: vec![prop("FN", "Al"), prop("ORG", "ACME")] }
}

fn switch_on() {
    colored::control::set_override(true);
}

/// What a terminal shows of a text.
fn visible(text: &str) -> String {
    let mut out = String::new();
    let mut inside = false;
    for c in text.chars() {
        if inside {
            inside = c != 'm';
        } else if c == '\u{1b}' {
            inside = true;
        } else {
            out.push(c);
        }
    }
    out
}

#[test]
fn styles_have_their_codes() {
    switch_on();
    assert_eq!(render_text("né", Style::Plain, 4), "né  ");
    assert_eq!(render_text("né", Style::Bold, 4), "\u{1b}[1mné  \u{1b}[0m");
    assert_eq!(render_text("né", Style::Dimmed, 4), "\u{1b}[2mné  \u{1b}[0m");
    assert_eq!(render_text("né", Style::Cyan, 4), "\u{1b}[36mné  \u{1b}[0m");
    assert_eq!(render_text("né", Style::BoldBlue, 4), "\u{1b}[1;34mné  \u{1b}[0m");
    assert_eq!(render_text("né", Style::BoldWhite, 4), "\u{1b}[1;37mné  \u{1b}[0m");
    assert_eq!(render_text("né", Style::BoldCyan, 4), "\u{1b}[1;36mné  \u{1b}[0m");
    assert_eq!(render_text("abc", Style::Bold, 2), "\u{1b}[1mabc\u{1b}[0m");
    assert_eq!(render_text("", Style::Bold, 0), "\u{1b}[1m\u{1b}[0m");
}

#[test]
fn a_style_is_taken_up_again_after_a_reset() {
    switch_on();
    assert_eq!(
        render_text("a\u{1b}[0mb", Style::Cyan, 0),
        "\u{1b}[36ma\u{1b}[0m\u{1b}[36mb\u{1b}[0m"
    );
    let line = Line {
        spans: vec![
            Span { text: "x".to_string(), style: Style::Plain, width: 0 },
            Span { text: "y".to_string(), style: Style::Bold, width: 2 },
            Span { text: "z".to_string(), style: Style::Plain, width: 0 },
        ],
        style: Style::Cyan,
    };
    assert_eq!(
        render(&line),
        "\u{1b}[36mx\u{1b}[1my \u{1b}[0m\u{1b}[36mz\u{1b}[0m"
    );
    assert_eq!(visible(&render(&line)), "xy z");
    assert_eq!(render_all(&vec![line.clone(), line]).len(), 2);
}

#[test]
fn a_coloured_row() {
    switch_on();
    assert_eq!(
        print_row("Email", "a@b.c", Some("ΑΣ")),
        vec!["  \u{1b}[1;34m         Email\u{1b}[0m  a@b.c\u{1b}[2m  [ας]\u{1b}[0m".to_string()]
    );
}

#[test]
fn a_coloured_card() {
    switch_on();
    let shown = display_card(&alice(), 0, 1);
    assert_eq!(
        shown,
        vec![
            format!(
                "\u{1b}[36m── \u{1b}[1m Contact \u{1b}[0m\u{1b}[36m {}\u{1b}[0m",
                "─".repeat(39)
            ),
            "  \u{1b}[1;37mAl\u{1b}[0m".to_string(),
            "".to_string(),
            "  \u{1b}[1;34m  Organisation\u{1b}[0m  ACME".to_string(),
            format!("\u{1b}[36m{}\u{1b}[0m", "─".repeat(52)),
        ]
    );
}

#[test]
fn a_coloured_table_is_aligned() {
    switch_on();
    let shown = display_table(&[alice()]);
    assert_eq!(
        shown[1],
        "\u{1b}[1;36m│ # │ Name │ Organisation │ Title/Role │ Email │ Phone │\u{1b}[0m"
    );
    assert_eq!(
        shown[3],
        "│ \u{1b}[2m1\u{1b}[0m │ \u{1b}[1mAl  \u{1b}[0m │ ACME         │            │       │       │"
    );
    assert_eq!(shown[5], "\u{1b}[2m  1 contact\u{1b}[0m");
    for line in &shown[..5] {
        assert_eq!(visible(line).chars().count(), 56);
    }
}

#[test]
fn a_coloured_summary() {
    switch_on();
    let shown = report(&[("a.vcf".to_string(), alice())], false, true);
    assert!(shown.starts_with("\u{1b}[1m  1 vCard from 1 file\u{1b}[0m\n\n"));
}
