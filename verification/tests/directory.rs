use txtgrep::directory::{scan_directory, scan_entries, Entry};

fn entry(path: &str, contents: Option<&str>) -> Entry {
    Entry { path: path.to_string(), contents: contents.map(|c| c.as_bytes().to_vec()) }
}

fn plain(lines: &[String]) -> Vec<String> {
    lines
        .iter()
        .map(|l| l.replace("\u{1b}[32m", "").replace("\u{1b}[33m", "").replace("\u{1b}[0m", ""))
        .collect()
}

#[test]
fn only_txt_entries_are_scanned() {
    let entries = vec![
        entry("d/notes.md", Some("a test\n")),
        entry("d/notes.txt", Some("a test\n")),
        entry("d/notes", Some("a test\n")),
        entry("d/.txt", Some("a test\n")),
        entry("d/NOTES.TXT", Some("a test\n")),
    ];
    let scan = scan_entries(&entries, "test");
    assert_eq!(plain(&scan.lines), vec!["d/notes.txt (line 1): a test".to_string()]);
    assert_eq!(scan.failed_at, None);
}

#[test]
fn output_follows_listing_order_then_line_order() {
    let entries = vec![
        entry("z.txt", Some("test 1\nno\ntest 3\n")),
        entry("a.txt", Some("no\ntest 2\n")),
        entry("m.txt", Some("nothing\n")),
    ];
    let scan = scan_entries(&entries, "test");
    assert_eq!(
        plain(&scan.lines),
        vec![
            "z.txt (line 1): test 1".to_string(),
            "z.txt (line 3): test 3".to_string(),
            "a.txt (line 2): test 2".to_string(),
        ]
    );
    assert_eq!(scan.failed_at, None);
}

#[test]
fn unreadable_entry_is_skipped_silently() {
    let entries = vec![
        entry("a.txt", Some("test a\n")),
        entry("gone.txt", None),
        entry("b.txt", Some("test b\n")),
    ];
    let scan = scan_entries(&entries, "test");
    assert_eq!(
        plain(&scan.lines),
        vec!["a.txt (line 1): test a".to_string(), "b.txt (line 1): test b".to_string()]
    );
    assert_eq!(scan.failed_at, None);
}

#[test]
fn invalid_text_ends_the_scan() {
    let entries = vec![
        entry("a.txt", Some("test a\n")),
        Entry { path: "bad.txt".to_string(), contents: Some(vec![b't', 0xff]) },
        entry("b.txt", Some("test b\n")),
    ];
    let scan = scan_entries(&entries, "test");
    assert_eq!(plain(&scan.lines), vec!["a.txt (line 1): test a".to_string()]);
    assert_eq!(scan.failed_at, Some(1));
}

#[test]
fn invalid_text_outside_candidates_is_never_read() {
    let entries = vec![
        Entry { path: "image.png".to_string(), contents: Some(vec![0x89, 0xff, 0x00]) },
        entry("b.txt", Some("test b\n")),
    ];
    let scan = scan_entries(&entries, "test");
    assert_eq!(plain(&scan.lines), vec!["b.txt (line 1): test b".to_string()]);
    assert_eq!(scan.failed_at, None);
}

#[test]
fn removing_a_non_candidate_changes_nothing() {
    let with = vec![
        entry("a.txt", Some("test a\n")),
        entry("sub", None),
        entry("b.md", Some("test md\n")),
        entry("c.txt", Some("x\ntest c\n")),
    ];
    let without = vec![entry("a.txt", Some("test a\n")), entry("c.txt", Some("x\ntest c\n"))];
    assert_eq!(scan_entries(&with, "test").lines, scan_entries(&without, "test").lines);
}

#[test]
fn empty_listing_gives_nothing() {
    let scan = scan_entries(&Vec::new(), "test");
    assert!(scan.lines.is_empty());
    assert_eq!(scan.failed_at, None);
    let scan = scan_directory(Some(&Vec::new()), "test");
    assert!(scan.lines.is_empty());
}

#[test]
fn unreadable_directory_gives_one_diagnostic() {
    let scan = scan_directory(None, "test");
    assert_eq!(scan.lines, vec!["Error: An error read while loading the directory".to_string()]);
    assert_eq!(scan.failed_at, None);
}

#[test]
fn readable_directory_is_scanned() {
    let entries = vec![entry("temp_test_file.txt", Some("Hello\nThis is a test\nAnother test line"))];
    let scan = scan_directory(Some(&entries), "test");
    assert_eq!(
        scan.lines,
        vec![
            "\u{1b}[32mtemp_test_file.txt\u{1b}[0m \u{1b}[33m(line 2)\u{1b}[0m: This is a test"
                .to_string(),
            "\u{1b}[32mtemp_test_file.txt\u{1b}[0m \u{1b}[33m(line 3)\u{1b}[0m: Another test line"
                .to_string(),
        ]
    );
}

#[test]
fn scanning_a_listing_twice_gives_the_same() {
    let entries = vec![
        entry("a.txt", Some("test a\n  test again \n")),
        entry("b.md", Some("test\n")),
        entry("c.txt", None),
    ];
    let first = scan_directory(Some(&entries), "test");
    let second = scan_directory(Some(&entries), "test");
    assert_eq!(first.lines, second.lines);
    assert_eq!(first.failed_at, second.failed_at);
    assert_eq!(first.lines.len(), 2);
}
