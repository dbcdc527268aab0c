//! Parsing, decoding and the fields of cards, on examples.

use vcard_viewer::card::{Property, VCard};
use vcard_viewer::cli::{collect_cards, count_files, is_card_extension, parse_args, Command};
use vcard_viewer::decode::{components, decode_quoted_printable, decode_value, fix_mojibake};
use vcard_viewer::fields::{card_field, card_name, card_org, card_texts, property_text};
use vcard_viewer::format::{address_of, at_most, format_address, format_name, name_of};
use vcard_viewer::parse::{parse_line, parse_vcards, split_line, unfold};
use vcard_viewer::table::{plural_ending, truncate, TableRow};
use vcard_viewer::text::{
    chars_of, count, decimal, eq_ignore_case, join, join_nonempty, lines, lower, nonempty,
    pad_left, pad_right, repeat, replace, same, split, split_once, splitn, string_between,
    string_of, trim, trim_cr, trim_each, upper, write_lines,
};

fn strings(items: &[&str]) -> Vec<String> {
    items.iter().map(|s| s.to_string()).collect()
}

fn prop(name: &str, value: &str, params: &[(&str, &str)]) -> Property {
    Property {
        name: name.to_string(),
        params: params.iter().map(|(k, v)| (k.to_string(), v.to_string())).collect(),
        value: value.to_string(),
    }
}

fn card(properties: Vec<Property>) -> VCard {
    VCard { properties }
}

#[test]
fn text_is_taken_apart_and_put_together() {
    assert_eq!(chars_of("aé…"), vec!['a', 'é', '…']);
    assert_eq!(string_of(&vec!['a', 'é', '…']), "aé…");
    assert_eq!(string_between(&vec!['a', 'b', 'c', 'd'], 1, 3), "bc");
    assert_eq!(count("aé…"), 3);
    assert_eq!(split("a;;b", ';'), strings(&["a", "", "b"]));
    assert_eq!(split("", ';'), strings(&[""]));
    assert_eq!(split(";", ';'), strings(&["", ""]));
    assert_eq!(splitn("a;b;c;d", ';', 3), strings(&["a", "b", "c;d"]));
    assert_eq!(splitn("a;b", ';', 1), strings(&["a;b"]));
    assert_eq!(splitn("a", ';', 3), strings(&["a"]));
    assert_eq!(split_once("a:b:c", ':'), Some(("a".to_string(), "b:c".to_string())));
    assert_eq!(split_once("abc", ':'), None);
    assert_eq!(join(&strings(&["a", "", "b"]), ", "), "a, , b");
    assert_eq!(join(&strings(&[]), ", "), "");
    assert_eq!(write_lines(&strings(&["a", "", "b"]), "\r\n"), "a\r\n\r\nb\r\n");
    assert_eq!(write_lines(&strings(&[]), "\n"), "");
    assert_eq!(nonempty(&strings(&["", "a", "", "b"])), strings(&["a", "b"]));
    assert_eq!(join_nonempty(&strings(&["", "a", "", "b"]), "-"), "a-b");
    assert_eq!(trim_each(&strings(&[" a ", "\t"])), strings(&["a", ""]));
}

#[test]
fn text_is_compared() {
    assert!(same("abc", "abc"));
    assert!(!same("abc", "abd"));
    assert!(!same("abc", "ab"));
    assert!(eq_ignore_case("Begin:vCard", "BEGIN:VCARD"));
    assert!(!eq_ignore_case("abc", "abcd"));
    assert!(!eq_ignore_case("[", "{"));
    assert!(!eq_ignore_case("ä", "Ä"));
}

#[test]
fn replace_takes_occurrences_from_the_left() {
    assert_eq!(replace("aaaa", "aa", "b"), "bb");
    assert_eq!(replace("aaa", "aa", "b"), "ba");
    assert_eq!(replace("abc", "x", "y"), "abc");
    assert_eq!(replace("xax", "x", ""), "a");
    assert_eq!(replace("a", "ab", "c"), "a");
}

#[test]
fn lines_end_at_either_line_break() {
    assert_eq!(lines("a\nb\r\nc"), strings(&["a", "b", "c"]));
    assert_eq!(lines("a\n"), strings(&["a"]));
    assert_eq!(lines("a\n\n"), strings(&["a", ""]));
    assert_eq!(lines("a\r"), strings(&["a\r"]));
    assert_eq!(lines("a\r\r\n"), strings(&["a\r"]));
    assert_eq!(lines(""), strings(&[]));
    assert_eq!(trim_cr("a\r\r"), "a");
    assert_eq!(trim_cr("\ra"), "\ra");
}

#[test]
fn numbers_and_padding() {
    assert_eq!(decimal(0), "0");
    assert_eq!(decimal(10), "10");
    assert_eq!(decimal(4096), "4096");
    assert_eq!(decimal(usize::MAX), usize::MAX.to_string());
    assert_eq!(repeat('─', 3), "───");
    assert_eq!(repeat('x', 0), "");
    assert_eq!(pad_right("né", 4), "né  ");
    assert_eq!(pad_left("né", 4), "  né");
    assert_eq!(pad_right("abcd", 2), "abcd");
    assert_eq!(pad_left("abcd", 2), "abcd");
    assert_eq!(plural_ending(0), "s");
    assert_eq!(plural_ending(1), "");
    assert_eq!(plural_ending(2), "s");
}

#[test]
fn white_space_is_the_unicode_property() {
    let blank: Vec<u32> = vec![
        0x9, 0xA, 0xB, 0xC, 0xD, 0x20, 0x85, 0xA0, 0x1680, 0x2000, 0x2001, 0x2002, 0x2003, 0x2004,
        0x2005, 0x2006, 0x2007, 0x2008, 0x2009, 0x200A, 0x2028, 0x2029, 0x202F, 0x205F, 0x3000,
    ];
    let mut n: u32 = 0;
    while n <= 0x10FFFF {
        if let Some(c) = char::from_u32(n) {
            assert_eq!(trim(&c.to_string()).is_empty(), blank.contains(&n), "U+{:04X}", n);
        }
        n += 1;
    }
    assert_eq!(trim("\u{3000} a b\u{A0}"), "a b");
    assert_eq!(trim("\u{200B}a"), "\u{200B}a");
}

#[test]
fn case_is_mapped_by_unicode() {
    assert_eq!(upper("item-1 straße"), "ITEM-1 STRASSE");
    assert_eq!(lower("WORK Éa"), "work éa");
    assert_eq!(lower("ΑΣ"), "ας");
    let mut n: u32 = 0;
    while n <= 0x10FFFF {
        if let Some(c) = char::from_u32(n) {
            assert!(!upper(&c.to_string()).chars().any(|u| u.is_ascii_lowercase()));
        }
        n += 1;
    }
    let mut b: u8 = 0;
    while b < 128 {
        let s = (b as char).to_string();
        assert_eq!(upper(&s), s.to_ascii_uppercase());
        assert_eq!(lower(&s), s.to_ascii_lowercase());
        b += 1;
    }
}

#[test]
fn unfold_is_exact_about_what_a_fold_is() {
    assert_eq!(unfold("a\r\nb"), "a\nb");
    assert_eq!(unfold("a\n"), "a\n");
    assert_eq!(unfold("\n a"), "a");
    assert_eq!(unfold("a\n \n b"), "ab");
    assert_eq!(unfold("a\n\n b"), "a\nb");
    assert_eq!(unfold("a\r b"), "a\r b");
    assert_eq!(unfold("a\n\u{A0}b"), "a\n\u{A0}b");
}

#[test]
fn unfold_of_parts_is_unfold_of_the_whole() {
    let a = "NOTE:one\r\n two\r\n";
    let b = "FN:th\n\tree\n";
    assert_eq!(unfold(&format!("{}{}", a, b)), format!("{}{}", unfold(a), unfold(b)));
}

#[test]
fn a_fold_makes_no_difference_to_the_cards() {
    let whole = "BEGIN:VCARD\nFN:Alice Adams\nEND:VCARD\n";
    let mut cut: usize = 0;
    while cut < whole.len() {
        let (a, b) = whole.split_at(cut);
        if !a.ends_with('\n') || !b.starts_with(' ') {
            for fold in ["\n ", "\r\n ", "\n\t", "\r\n\t"] {
                let cards = parse_vcards(&format!("{}{}{}", a, fold, b));
                assert_eq!(cards.len(), 1);
                assert_eq!(card_field(&cards[0], "FN"), "Alice Adams");
            }
        }
        cut += 1;
    }
}

#[test]
fn split_line_keeps_what_was_written() {
    let parts = split_line("item1.tel;type=Work;voice;x=a=b:1:2").unwrap();
    assert_eq!(parts.name, "tel");
    assert_eq!(
        parts.params,
        vec![
            (Some("type".to_string()), "Work".to_string()),
            (None, "voice".to_string()),
            (Some("x".to_string()), "a=b".to_string()),
        ]
    );
    assert_eq!(parts.value, "1:2");
    assert!(split_line("no colon").is_none());
}

#[test]
fn parse_line_puts_names_and_keys_in_upper_case() {
    let p = parse_line("a.b.tél;é=ü;Work:x").unwrap();
    assert_eq!(p.name, "B.TÉL");
    assert_eq!(
        p.params,
        vec![
            ("É".to_string(), "ü".to_string()),
            ("TYPE".to_string(), "Work".to_string()),
        ]
    );
    assert_eq!(p.value, "x");
    let p = parse_line(":").unwrap();
    assert_eq!(p.name, "");
    assert_eq!(p.params, vec![]);
    assert_eq!(p.value, "");
    let p = parse_line("TEL;:1").unwrap();
    assert_eq!(p.params, vec![("TYPE".to_string(), "".to_string())]);
}

#[test]
fn a_group_makes_no_difference() {
    let plain = parse_line("EMAIL;TYPE=HOME:a@b.com").unwrap();
    let grouped = parse_line("item7.EMAIL;TYPE=HOME:a@b.com").unwrap();
    assert_eq!(plain.name, grouped.name);
    assert_eq!(plain.params, grouped.params);
    assert_eq!(plain.value, grouped.value);
}

#[test]
fn cards_are_framed_by_begin_and_end() {
    let cards = parse_vcards("FN:outside\nbegin:vcard\r\nFN:A\r\nnothing\r\nEnd:VCard\r\nFN:late\n");
    assert_eq!(cards.len(), 1);
    assert_eq!(cards[0].properties.len(), 1);
    assert_eq!(cards[0].properties[0].value, "A");
    assert_eq!(parse_vcards("END:VCARD\nEND:VCARD\n").len(), 0);
    assert_eq!(parse_vcards("BEGIN:VCARD\nFN:A\n").len(), 0);
    let cards = parse_vcards("BEGIN:VCARD\nFN:A\nBEGIN:VCARD\nFN:B\nEND:VCARD\nEND:VCARD");
    assert_eq!(cards.len(), 1);
    assert_eq!(card_field(&cards[0], "FN"), "B");
    assert_eq!(parse_vcards("BEGIN:VCARD \nFN:A\nEND:VCARD\n").len(), 0);
    assert_eq!(parse_vcards("BEGIN:VCARD\r\r\nEND:VCARD\r\r\n").len(), 1);
}

#[test]
fn written_cards_read_back() {
    for ending in ["\n", "\r\n"] {
        let text = ["BEGIN:VCARD", "FN:A", "TEL;WORK:1", "END:VCARD", "BEGIN:VCARD", "END:VCARD", ""]
            .join(ending);
        let cards = parse_vcards(&text);
        assert_eq!(cards.len(), 2);
        assert_eq!(cards[0].properties.len(), 2);
        assert_eq!(cards[0].properties[0].name, "FN");
        assert_eq!(cards[0].properties[0].value, "A");
        assert_eq!(cards[0].properties[1].type_param(), Some("WORK"));
        assert_eq!(cards[1].properties.len(), 0);
        let twice = parse_vcards(&format!("{}{}", text, text));
        assert_eq!(twice.len(), 4);
    }
}

#[test]
fn lookups_ignore_case_and_find_the_first() {
    let c = card(vec![
        prop("Email", "a", &[("Type", "X"), ("TYPE", "Y")]),
        prop("TEL", "1", &[]),
        prop("EMAIL", "b", &[]),
    ]);
    assert_eq!(c.get("eMAIL").unwrap().value, "a");
    let all: Vec<String> = c.get_all("email").iter().map(|p| p.value.clone()).collect();
    assert_eq!(all, strings(&["a", "b"]));
    assert_eq!(c.get("EMAIL").unwrap().value, c.get_all("EMAIL")[0].value);
    assert!(c.get("URL").is_none());
    assert!(c.get_all("URL").is_empty());
    assert_eq!(c.properties[0].param("tYPE"), Some("X"));
    assert_eq!(c.properties[0].type_param(), Some("X"));
    assert_eq!(c.properties[1].param("TYPE"), None);
}

#[test]
fn quoted_printable_reads_bytes() {
    assert_eq!(decode_quoted_printable("=41=6a=6A"), "Ajj");
    assert_eq!(decode_quoted_printable("=E4=F6"), "äö");
    assert_eq!(decode_quoted_printable("=+A"), "=+A");
    assert_eq!(decode_quoted_printable("=A+=+"), "=A+");
    assert_eq!(decode_quoted_printable("=GG=4z=-1"), "=GG=4z=-1");
    assert_eq!(decode_quoted_printable("=é€"), "=é€");
    assert_eq!(decode_quoted_printable("a="), "a");
    assert_eq!(decode_quoted_printable("a=4"), "a");
    assert_eq!(decode_quoted_printable("a=\n"), "a");
    assert_eq!(decode_quoted_printable("Hel=\r\n"), "Hel");
    assert_eq!(decode_quoted_printable("Hel=\r\nlo"), "Hello");
    assert_eq!(decode_quoted_printable("Hel=\rlo"), "Hel=\rlo");
    assert_eq!(decode_quoted_printable("é=20€"), "é €");
    assert_eq!(decode_quoted_printable("é=E4"), "Ã©ä");
    assert_eq!(decode_quoted_printable("no sign"), "no sign");
}

#[test]
fn quoted_text_reads_back() {
    let text = "caf\u{e9} = 5 \u{20ac} \u{1f600}\n";
    let mut quoted = String::new();
    for c in text.chars() {
        if c == '=' || !c.is_ascii() {
            for b in c.to_string().as_bytes() {
                quoted.push_str(&format!("={:02X}", b));
            }
        } else {
            quoted.push(c);
        }
    }
    assert_eq!(decode_quoted_printable(&quoted), text);
    let mut b: u32 = 0;
    while b < 256 {
        let expected = char::from_u32(b).unwrap().to_string();
        assert_eq!(decode_quoted_printable(&format!("={:02x}", b)), expected);
        b += 1;
    }
}

#[test]
fn mojibake_is_repaired_with_care() {
    for text in ["Müller", "€", "plain", "", "日本"] {
        let garbled: String = text.as_bytes().iter().map(|&b| b as char).collect();
        assert_eq!(fix_mojibake(&garbled), text);
    }
    assert_eq!(fix_mojibake("Müller"), "Müller");
    assert_eq!(fix_mojibake("Ã¼ €"), "Ã¼ €");
    assert_eq!(fix_mojibake("Ã"), "Ã");
}

#[test]
fn values_are_unescaped_from_the_left() {
    assert_eq!(decode_value(&prop("NOTE", "a\\nb\\Nc", &[])), "a\nb\nc");
    assert_eq!(decode_value(&prop("NOTE", "a\\,b\\;c\\\\d", &[])), "a,b;c\\d");
    assert_eq!(decode_value(&prop("NOTE", "\\x \\", &[])), "\\x \\");
    assert_eq!(decode_value(&prop("NOTE", "a\\\\nb", &[])), "a\\nb");
    assert_eq!(decode_value(&prop("NOTE", "\\\\,", &[])), "\\,");
    assert_eq!(decode_value(&prop("NOTE", "=41", &[])), "=41");
    assert_eq!(decode_value(&prop("NOTE", "=41=5Cn", &[("encoding", "quoted-Printable")])), "A\n");
    assert_eq!(decode_value(&prop("NOTE", "=41", &[("ENCODING", "BASE64")])), "=41");
    assert_eq!(decode_value(&prop("NOTE", "Ã¼\\,", &[])), "ü,");
}

#[test]
fn escaped_text_reads_back() {
    let text = "1, 2; 3 \\ 4\n5 \\n \\N \\\\n";
    let escaped =
        text.replace('\\', "\\\\").replace(',', "\\,").replace(';', "\\;").replace('\n', "\\n");
    assert_eq!(decode_value(&prop("NOTE", &escaped, &[])), text);
}

#[test]
fn names_are_put_together_from_components() {
    assert_eq!(format_name(" Doe ; John ;Q.;Dr.;PhD;MD"), "Dr. John Q. Doe, PhD;MD");
    assert_eq!(format_name(";;;;Jr."), ", Jr.");
    assert_eq!(format_name(" ; ;\u{A0}; ; "), "");
    assert_eq!(format_name(""), "");
}

#[test]
fn addresses_are_put_together_from_components() {
    assert_eq!(
        format_address("12;Floor 2;1 Main St;Town;ST;999;Land;x"),
        "P.O. Box 12, Floor 2, 1 Main St, Town, ST 999, Land;x"
    );
    assert_eq!(format_address(";;;;ST;;"), "ST");
    assert_eq!(format_address(";;;;;999;"), "999");
    assert_eq!(format_address(";;;Town;;999;"), "Town 999");
    assert_eq!(format_address(" ;;\t;;;;"), "");
    assert_eq!(format_address(""), "");
}

#[test]
fn truncate_fits_the_width() {
    assert_eq!(truncate("abc", 3), "abc");
    assert_eq!(truncate("abcd", 3), "ab…");
    assert_eq!(truncate("äöü", 2), "ä…");
    assert_eq!(truncate("ab", 1), "…");
    assert_eq!(truncate("hello", 0), "");
    assert_eq!(truncate("", 0), "");
}

#[test]
fn fields_of_a_card() {
    let c = card(vec![
        prop("FN", "", &[]),
        prop("N", "Doe;Jane", &[]),
        prop("ORG", " ACME ; ;R\\;D", &[]),
        prop("ROLE", "Boss", &[]),
        prop("EMAIL", "", &[]),
        prop("EMAIL", "j@d.com", &[]),
        prop("ADR", ";;;Town;;;", &[]),
    ]);
    assert_eq!(card_field(&c, "ROLE"), "Boss");
    assert_eq!(card_field(&c, "TITLE"), "");
    assert_eq!(card_name(&c), "Jane Doe");
    assert_eq!(card_org(&c), "ACME · R;D");
    assert_eq!(card_texts(&c, "EMAIL", false), strings(&["", "j@d.com"]));
    assert_eq!(card_texts(&c, "ADR", true), strings(&["Town"]));
    assert_eq!(property_text(&c.properties[6], false), ";;;Town;;;");
    let row = TableRow::from_card(&c);
    assert_eq!(row.name, "Jane Doe");
    assert_eq!(row.org, "ACME");
    assert_eq!(row.title, "Boss");
    assert_eq!(row.email, "j@d.com");
    assert_eq!(row.phone, "");
    let empty = card(vec![]);
    assert_eq!(card_name(&empty), "");
    assert_eq!(card_org(&empty), "");
    assert_eq!(TableRow::from_card(&empty).org, "");
}

#[test]
fn arguments_ask_for_a_command() {
    assert!(matches!(parse_args(&strings(&[])), Command::Usage));
    assert!(matches!(parse_args(&strings(&["viewer"])), Command::Usage));
    assert!(matches!(parse_args(&strings(&["viewer", "a.vcf", "-h"])), Command::Usage));
    assert!(matches!(parse_args(&strings(&["viewer", "--help", "a.vcf"])), Command::Usage));
    assert!(matches!(parse_args(&strings(&["viewer", "--csv"])), Command::MissingPath));
    assert!(matches!(parse_args(&strings(&["viewer", "-x", "-"])), Command::MissingPath));
    match parse_args(&strings(&["viewer", "-x", "a.vcf", "b.vcf"])) {
        Command::View { csv, path } => {
            assert!(!csv);
            assert_eq!(path, "a.vcf");
        }
        _ => panic!("a view was asked for"),
    }
    for args in [["viewer", "--csv", "a.vcf"], ["viewer", "a.vcf", "--csv"]] {
        match parse_args(&strings(&args)) {
            Command::View { csv, path } => {
                assert!(csv);
                assert_eq!(path, "a.vcf");
            }
            _ => panic!("a view was asked for"),
        }
    }
}

#[test]
fn contact_files_are_known_by_extension() {
    assert!(is_card_extension("vcf"));
    assert!(is_card_extension("VCard"));
    assert!(!is_card_extension("vcf2"));
    assert!(!is_card_extension(""));
}

#[test]
fn cards_are_collected_file_by_file() {
    let one = "BEGIN:VCARD\nFN:A\nEND:VCARD\n".to_string();
    let two = "BEGIN:VCARD\nFN:B\nEND:VCARD\nBEGIN:VCARD\nFN:C\nEND:VCARD\n".to_string();
    let sources = vec![
        ("1.vcf".to_string(), one),
        ("none.vcf".to_string(), String::new()),
        ("2.vcf".to_string(), two),
    ];
    let cards = collect_cards(&sources);
    let found: Vec<(String, String)> =
        cards.iter().map(|(l, c)| (l.clone(), card_name(c))).collect();
    assert_eq!(
        found,
        vec![
            ("1.vcf".to_string(), "A".to_string()),
            ("2.vcf".to_string(), "B".to_string()),
            ("2.vcf".to_string(), "C".to_string()),
        ]
    );
    assert_eq!(count_files(&cards), 2);
    assert_eq!(count_files(&cards[1..]), 1);
    assert_eq!(count_files(&[]), 0);
    let mut apart = collect_cards(&sources[..1]);
    apart.extend(collect_cards(&sources[1..]));
    assert_eq!(apart.len(), cards.len());
}

#[test]
fn components_are_parted_by_bare_semicolons() {
    let parted = |value: &str| components(&prop("N", value, &[]));
    assert_eq!(parted(r"Acme\; Inc;Dept"), strings(&["Acme; Inc", "Dept"]));
    assert_eq!(parted(r"a\;b"), strings(&["a;b"]));
    assert_eq!(parted(r"a\\;b"), strings(&[r"a\", "b"]));
    assert_eq!(parted(r";\n\,;"), strings(&["", "\n,", ""]));
    assert_eq!(parted(r"a\"), strings(&[r"a\"]));
    assert_eq!(parted(r"a\x;b"), strings(&[r"a\x", "b"]));
    assert_eq!(parted(""), strings(&[""]));
    assert_eq!(parted("Ã¼;Ã¶"), strings(&["ü", "ö"]));
    let quoted = prop("N", "=C3=BC=3Bb=5C=3Bc", &[("ENCODING", "QUOTED-PRINTABLE")]);
    assert_eq!(components(&quoted), strings(&["ü", "b;c"]));
}

#[test]
fn written_components_read_back() {
    let parts = strings(&["a;b", r"c\", "d,\ne", "", r"\n\;"]);
    let escaped: Vec<String> = parts
        .iter()
        .map(|p| {
            p.replace('\\', r"\\").replace(';', r"\;").replace(',', r"\,").replace('\n', r"\n")
        })
        .collect();
    assert_eq!(components(&prop("N", &escaped.join(";"), &[])), parts);
}

#[test]
fn lists_of_components_are_cut() {
    assert_eq!(at_most(&strings(&["a", "b", "c"]), 3), strings(&["a", "b", "c"]));
    assert_eq!(at_most(&strings(&["a", "b", "c"]), 2), strings(&["a", "b;c"]));
    assert_eq!(at_most(&strings(&["a", "b", "c"]), 1), strings(&["a;b;c"]));
    assert_eq!(at_most(&strings(&[]), 1), strings(&[]));
    for text in ["", "a", "a;b", "a;b;c", ";;;;;;;;"] {
        for n in [1, 2, 3, 5, 7] {
            assert_eq!(at_most(&split(text, ';'), n), splitn(text, ';', n));
        }
    }
    assert_eq!(name_of(&strings(&["Doe", " Jane ", "", "", "PhD"])), "Jane Doe, PhD");
    assert_eq!(name_of(&strings(&[])), "");
    assert_eq!(address_of(&strings(&["1", "", "", "Town"])), "P.O. Box 1, Town");
}

#[test]
fn escaped_semicolons_stay_in_their_component() {
    let c = card(vec![
        prop("ORG", r"Acme\; Inc;Dept", &[]),
        prop("N", r"Doe\; Roe;Jane;;;PhD;MD", &[]),
        prop("ADR", r";;1 Main St\; Rear;Town;;;Land;x", &[]),
    ]);
    assert_eq!(TableRow::from_card(&c).org, "Acme; Inc");
    assert_eq!(card_org(&c), "Acme; Inc · Dept");
    assert_eq!(card_name(&c), "Jane Doe; Roe, PhD;MD");
    assert_eq!(card_texts(&c, "ADR", true), strings(&["1 Main St; Rear, Town, Land;x"]));
}

#[test]
fn a_parsed_line_reads_back() {
    for line in ["item1.tel;type=Work;voice;x=a=b:1:2", "fn:Alice", "n;;=:a;b", ":"] {
        let p = parse_line(line).unwrap();
        let mut again = p.name.clone();
        for (k, v) in &p.params {
            again.push_str(&format!(";{}={}", k, v));
        }
        again.push_str(&format!(":{}", p.value));
        let q = parse_line(&again).unwrap();
        assert_eq!(q.name, p.name);
        assert_eq!(q.params, p.params);
        assert_eq!(q.value, p.value);
    }
}

#[test]
fn cards_hold_the_lines_between_begin_and_end() {
    let text = "a:0\nBEGIN:VCARD\nb:1\nc\nBEGIN:VCARD\nd;e=f:2\r\ng.h:3\nEND:VCARD\ni:4\nEND:VCARD\n\
                BEGIN:VCARD\nEND:VCARD\nBEGIN:VCARD\nj:5\n";
    let cards = parse_vcards(text);
    assert_eq!(cards.len(), 2);
    let found: Vec<(String, String)> =
        cards[0].properties.iter().map(|p| (p.name.clone(), p.value.clone())).collect();
    assert_eq!(
        found,
        vec![("D".to_string(), "2".to_string()), ("H".to_string(), "3".to_string())]
    );
    assert_eq!(cards[1].properties.len(), 0);
}

#[test]
fn other_escapes_do_not_part_components() {
    let value = r"1;;Main St\, Rear\nGate;Town\\;;9;Land";
    let c = card(vec![
        prop("N", r"Doe\, Roe;Jane", &[]),
        prop("ORG", r"Acme\, Inc;R\\D", &[]),
        prop("ADR", value, &[]),
    ]);
    let decoded = |name: &str| card_field(&c, name);
    assert_eq!(components(&c.properties[2]), split(&decoded("ADR"), ';'));
    assert_eq!(card_name(&c), format_name(&decoded("N")));
    assert_eq!(card_name(&c), "Jane Doe, Roe");
    assert_eq!(property_text(&c.properties[2], true), format_address(&decoded("ADR")));
    assert_eq!(
        property_text(&c.properties[2], true),
        "P.O. Box 1, Main St, Rear\nGate, Town\\ 9, Land"
    );
    assert_eq!(card_org(&c), "Acme, Inc · R\\D");
    assert_eq!(TableRow::from_card(&c).org, "Acme, Inc");
}
