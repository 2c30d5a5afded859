use find_all::report::scan_lines;
use find_all::walk::{action_for, Action, Walker};

/// What a small file system in memory holds at a path.
enum Entry {
    File(Vec<Option<String>>),
    Directory(Vec<&'static str>),
    Unlistable,
    Other,
}

fn text_lines(texts: &[&str]) -> Vec<Option<String>> {
    texts.iter().map(|t| Some(t.to_string())).collect()
}

/// Searches the tree that `look` describes, from the directory `root`, as a
/// program around the work-list would.
fn search(root: &str, pattern: &str, look: fn(&str) -> Entry) -> Vec<String> {
    let mut output = Vec::new();
    let mut walker: Walker<String> = Walker::new();
    let mut action = Action::List(root.to_string());
    loop {
        match action {
            Action::Search(path) => {
                if let Entry::File(lines) = look(&path) {
                    output.extend(scan_lines(&path, &lines, pattern));
                }
            }
            Action::List(path) => {
                if let Entry::Directory(names) = look(&path) {
                    walker.push_listing(names.iter().map(|n| format!("{}/{}", path, n)).collect());
                }
            }
            Action::Skip => {}
        }
        match walker.next() {
            Some(path) => {
                let entry = look(&path);
                let is_file = matches!(entry, Entry::File(_));
                let is_directory = matches!(entry, Entry::Directory(_) | Entry::Unlistable);
                action = action_for(path, is_file, is_directory);
            }
            None => break,
        }
    }
    assert!(walker.is_done());
    output
}

fn small_tree(path: &str) -> Entry {
    match path {
        "root" => Entry::Directory(vec!["a.txt", "sub"]),
        "root/a.txt" => Entry::File(text_lines(&["hello world", "goodbye"])),
        "root/sub" => Entry::Directory(vec!["b.txt"]),
        "root/sub/b.txt" => Entry::File(text_lines(&["hello there, hello again"])),
        _ => Entry::Other,
    }
}

fn mixed_tree(path: &str) -> Entry {
    match path {
        "top" => Entry::Directory(vec!["one", "locked", "dir", "socket", "two"]),
        "top/one" => Entry::File(text_lines(&["x", "needle", "y"])),
        "top/locked" => Entry::Unlistable,
        "top/dir" => Entry::Directory(vec!["deep", "empty", "three"]),
        "top/dir/deep" => Entry::Directory(vec!["four"]),
        "top/dir/deep/four" => Entry::File(vec![None, Some("a needle".to_string())]),
        "top/dir/empty" => Entry::Directory(vec![]),
        "top/dir/three" => Entry::File(text_lines(&["needle needle"])),
        "top/socket" => Entry::Other,
        "top/two" => Entry::File(text_lines(&["nothing", "", "the needle"])),
        _ => Entry::Other,
    }
}

#[test]
fn search_of_a_small_tree() {
    let output = search("root", "hello", small_tree);
    assert_eq!(
        output,
        vec![
            "root/a.txt:1: \x1b[31mhello\x1b[0m world".to_string(),
            "root/sub/b.txt:1: \x1b[31mhello\x1b[0m there, \x1b[31mhello\x1b[0m again".to_string(),
        ]
    );
    assert!(output.iter().all(|line| !line.contains("goodbye")));
}

#[test]
fn search_for_an_absent_pattern_prints_nothing() {
    assert_eq!(search("root", "absent", small_tree), Vec::<String>::new());
    assert_eq!(search("top", "absent", mixed_tree), Vec::<String>::new());
}

#[test]
fn search_goes_depth_first_in_listing_order() {
    let output = search("top", "needle", mixed_tree);
    assert_eq!(
        output,
        vec![
            "top/one:2: \x1b[31mneedle\x1b[0m".to_string(),
            "top/dir/deep/four:2: a \x1b[31mneedle\x1b[0m".to_string(),
            "top/dir/three:1: \x1b[31mneedle\x1b[0m \x1b[31mneedle\x1b[0m".to_string(),
            "top/two:3: the \x1b[31mneedle\x1b[0m".to_string(),
        ]
    );
}

#[test]
fn search_twice_prints_the_same() {
    assert_eq!(search("top", "needle", mixed_tree), search("top", "needle", mixed_tree));
    assert_eq!(search("root", "hello", small_tree), search("root", "hello", small_tree));
}

#[test]
fn search_of_a_directory_that_cannot_be_listed_prints_nothing() {
    assert_eq!(search("top/locked", "needle", mixed_tree), Vec::<String>::new());
}

#[test]
fn action_for_a_file_is_search() {
    assert!(matches!(action_for("p", true, false), Action::Search("p")));
}

#[test]
fn action_for_a_directory_is_list() {
    assert!(matches!(action_for("p", false, true), Action::List("p")));
}

#[test]
fn action_for_anything_else_is_skip() {
    assert!(matches!(action_for("p", false, false), Action::Skip));
}

#[test]
fn action_for_prefers_the_file() {
    assert!(matches!(action_for("p", true, true), Action::Search("p")));
}

#[test]
fn new_walker_is_done() {
    let mut walker: Walker<u32> = Walker::new();
    assert!(walker.is_done());
    assert_eq!(walker.next(), None);
    assert!(walker.is_done());
}

#[test]
fn walker_yields_a_listing_in_order() {
    let mut walker = Walker::new();
    walker.push_listing(vec![1, 2, 3]);
    assert!(!walker.is_done());
    assert_eq!(walker.next(), Some(1));
    assert_eq!(walker.next(), Some(2));
    assert_eq!(walker.next(), Some(3));
    assert_eq!(walker.next(), None);
}

#[test]
fn walker_puts_a_new_listing_in_front() {
    let mut walker = Walker::new();
    walker.push_listing(vec![1, 2, 3]);
    assert_eq!(walker.next(), Some(1));
    walker.push_listing(vec![10, 11]);
    assert_eq!(walker.next(), Some(10));
    assert_eq!(walker.next(), Some(11));
    assert_eq!(walker.next(), Some(2));
    walker.push_listing(Vec::new());
    assert_eq!(walker.next(), Some(3));
    assert!(walker.is_done());
}
