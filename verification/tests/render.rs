use txtgrep::render::{format_result, push_decimal, render_line, MatchRecord, Style};

fn decimal(n: u128) -> String {
    let mut out = String::new();
    push_decimal(&mut out, n);
    out
}

#[test]
fn format_result_counts_from_one_and_trims() {
    assert_eq!(
        format_result("temp_test_file.txt", 1, "This is a test"),
        "\u{1b}[32mtemp_test_file.txt\u{1b}[0m \u{1b}[33m(line 2)\u{1b}[0m: This is a test"
    );
    assert_eq!(
        format_result("a.txt", 0, "  \tindented  \r"),
        "\u{1b}[32ma.txt\u{1b}[0m \u{1b}[33m(line 1)\u{1b}[0m: indented"
    );
    assert_eq!(
        format_result("", 41, ""),
        "\u{1b}[32m\u{1b}[0m \u{1b}[33m(line 42)\u{1b}[0m: "
    );
}

#[test]
fn format_result_of_the_greatest_index() {
    let expected = format!(
        "\u{1b}[32mf\u{1b}[0m \u{1b}[33m(line {})\u{1b}[0m: x",
        usize::MAX as u128 + 1
    );
    assert_eq!(format_result("f", usize::MAX, "x"), expected);
}

#[test]
fn plain_style_has_no_escape_sequences() {
    let line = render_line("dir/a.txt", 7, "some text", Style::Plain);
    assert_eq!(line, "dir/a.txt (line 7): some text");
    assert!(!line.contains('\u{1b}'));
}

#[test]
fn ansi_style_paints_path_and_label() {
    let line = render_line("dir/a.txt", 7, "some text", Style::Ansi);
    assert_eq!(line, "\u{1b}[32mdir/a.txt\u{1b}[0m \u{1b}[33m(line 7)\u{1b}[0m: some text");
}

#[test]
fn record_renders_as_its_fields() {
    let record = MatchRecord {
        path: "notes.txt".to_string(),
        line_number: 12,
        content: "needle in hay".to_string(),
    };
    assert_eq!(record.render(Style::Plain), "notes.txt (line 12): needle in hay");
    assert_eq!(
        record.render(Style::Ansi),
        "\u{1b}[32mnotes.txt\u{1b}[0m \u{1b}[33m(line 12)\u{1b}[0m: needle in hay"
    );
}

#[test]
fn decimal_numerals() {
    assert_eq!(decimal(0), "0");
    assert_eq!(decimal(7), "7");
    assert_eq!(decimal(10), "10");
    assert_eq!(decimal(109), "109");
    assert_eq!(decimal(1234567890), "1234567890");
    assert_eq!(decimal(u64::MAX as u128), "18446744073709551615");
    assert_eq!(decimal(u128::MAX), "340282366920938463463374607431768211455");
    for n in 0u128..2000 {
        assert_eq!(decimal(n), n.to_string());
    }
}

#[test]
fn decimal_is_appended() {
    let mut out = String::from("n=");
    push_decimal(&mut out, 305);
    assert_eq!(out, "n=305");
}
