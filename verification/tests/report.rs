use find_all::report::{line_report, scan_lines};

fn lines(texts: &[&str]) -> Vec<Option<String>> {
    texts.iter().map(|t| Some(t.to_string())).collect()
}

#[test]
fn line_report_has_path_number_and_marked_line() {
    assert_eq!(
        line_report("root/a.txt", 0, "hello world", "hello"),
        Some("root/a.txt:1: \x1b[31mhello\x1b[0m world".to_string())
    );
}

#[test]
fn line_report_counts_from_one() {
    assert_eq!(line_report("f", 0, "x", "x"), Some("f:1: \x1b[31mx\x1b[0m".to_string()));
    assert_eq!(line_report("f", 9, "x", "x"), Some("f:10: \x1b[31mx\x1b[0m".to_string()));
    assert_eq!(line_report("f", 122, "x", "x"), Some("f:123: \x1b[31mx\x1b[0m".to_string()));
}

#[test]
fn line_report_is_none_without_match() {
    assert_eq!(line_report("root/a.txt", 1, "goodbye", "hello"), None);
    assert_eq!(line_report("root/a.txt", 1, "", "hello"), None);
}

#[test]
fn line_report_marks_every_occurrence() {
    assert_eq!(
        line_report("root/sub/b.txt", 0, "hello there, hello again", "hello"),
        Some("root/sub/b.txt:1: \x1b[31mhello\x1b[0m there, \x1b[31mhello\x1b[0m again".to_string())
    );
}

#[test]
fn line_report_of_the_last_possible_line() {
    let report = line_report("f", usize::MAX - 1, "x", "x");
    assert_eq!(report, Some(format!("f:{}: \x1b[31mx\x1b[0m", usize::MAX)));
}

#[test]
fn scan_lines_reports_each_matching_line_once() {
    let file = lines(&["hello world", "goodbye", "say hello", "", "hello hello"]);
    let reports = scan_lines("a.txt", &file, "hello");
    assert_eq!(
        reports,
        vec![
            "a.txt:1: \x1b[31mhello\x1b[0m world".to_string(),
            "a.txt:3: say \x1b[31mhello\x1b[0m".to_string(),
            "a.txt:5: \x1b[31mhello\x1b[0m \x1b[31mhello\x1b[0m".to_string(),
        ]
    );
}

#[test]
fn scan_lines_without_match_reports_nothing() {
    let file = lines(&["hello world", "goodbye"]);
    assert_eq!(scan_lines("a.txt", &file, "absent"), Vec::<String>::new());
    assert_eq!(scan_lines("a.txt", &Vec::new(), "hello"), Vec::<String>::new());
}

#[test]
fn scan_lines_counts_lines_that_are_not_text() {
    let file = vec![
        Some("match".to_string()),
        None,
        Some("no".to_string()),
        None,
        Some("a match".to_string()),
    ];
    let reports = scan_lines("f", &file, "match");
    assert_eq!(
        reports,
        vec!["f:1: \x1b[31mmatch\x1b[0m".to_string(), "f:5: a \x1b[31mmatch\x1b[0m".to_string()]
    );
}

#[test]
fn scan_lines_with_the_empty_pattern_reports_every_text_line() {
    let file = vec![Some("ab".to_string()), None, Some(String::new())];
    let reports = scan_lines("f", &file, "");
    assert_eq!(
        reports,
        vec![
            "f:1: \x1b[31m\x1b[0ma\x1b[31m\x1b[0mb\x1b[31m\x1b[0m".to_string(),
            "f:3: \x1b[31m\x1b[0m".to_string(),
        ]
    );
}

#[test]
fn scan_lines_agrees_with_line_report() {
    let texts = ["alpha", "beta", "alphabet", "gamma", "al", "alpha alpha"];
    let file = lines(&texts);
    let mut expected = Vec::new();
    for (index, text) in texts.iter().enumerate() {
        if let Some(report) = line_report("dir/file", index, text, "alpha") {
            expected.push(report);
        }
    }
    assert_eq!(expected.len(), 3);
    assert_eq!(scan_lines("dir/file", &file, "alpha"), expected);
}

#[test]
fn scan_lines_twice_gives_the_same() {
    let file = lines(&["hello world", "goodbye", "hello"]);
    assert_eq!(scan_lines("a.txt", &file, "hello"), scan_lines("a.txt", &file, "hello"));
}
