use debian_changelog::changes_by_author;
use debian_changelog::changes_sections;
use debian_changelog::strip_for_commit_message;
use debian_changelog::Section;

#[test]
fn changes_test_simple() {
    let sections = changes_sections(vec!["", "* Change 1", "* Change 2", "  rest", ""]);
    assert_eq!(
        vec![Section {
            title: None,
            linenos: vec![1, 2, 3, 4],
            changes: vec![
                (vec![(1, "* Change 1")]),
                (vec![(2, "* Change 2"), (3, "  rest")])
            ]
        }],
        sections
    );
}

#[test]
fn test_with_header() {
    assert_eq!(
        vec![
            Section {
                title: Some("Author 1"),
                linenos: vec![1, 2, 3],
                changes: vec![(vec![(2, "* Change 1")])]
            },
            Section {
                title: Some("Author 2"),
                linenos: vec![4, 5, 6, 7],
                changes: vec![(vec![(5, "* Change 2"), (6, "  rest")])]
            },
        ],
        changes_sections(vec![
            "",
            "[ Author 1 ]",
            "* Change 1",
            "",
            "[ Author 2 ]",
            "* Change 2",
            "  rest",
            "",
        ])
    );
}

#[test]
fn test_by_author_rows() {
    let rows = changes_by_author(vec![
        "",
        "[ Author 1 ]",
        "* Change 1",
        "",
        "[ Author 2 ]",
        "* Change 2",
        "  rest",
        "",
    ]);
    assert_eq!(
        rows,
        vec![
            (Some("Author 1"), vec![2], vec!["* Change 1"]),
            (Some("Author 2"), vec![5, 6], vec!["* Change 2", "  rest"]),
        ]
    );
}

#[test]
fn test_by_author_without_header() {
    let rows = changes_by_author(vec!["* Change 1", "* Change 2", "  rest"]);
    assert_eq!(
        rows,
        vec![
            (None, vec![0], vec!["* Change 1"]),
            (None, vec![1, 2], vec!["* Change 2", "  rest"]),
        ]
    );
}

#[test]
fn test_no_changes() {
    assert_eq!(strip_for_commit_message(vec![]), Vec::<&str>::new());
}

#[test]
fn test_empty_changes() {
    assert_eq!(strip_for_commit_message(vec![""]), Vec::<&str>::new());
}

#[test]
fn test_removes_leading_whitespace() {
    assert_eq!(
        strip_for_commit_message(vec!["foo", "bar", "\tbaz", " bang"]),
        vec!["foo", "bar", "baz", " bang"]
    );
}

#[test]
fn test_removes_star_if_one() {
    assert_eq!(strip_for_commit_message(vec!["* foo"]), vec!["foo"]);
    assert_eq!(strip_for_commit_message(vec!["\t* foo"]), vec!["foo"]);
    assert_eq!(strip_for_commit_message(vec!["+ foo"]), vec!["foo"]);
    assert_eq!(strip_for_commit_message(vec!["- foo"]), vec!["foo"]);
    assert_eq!(strip_for_commit_message(vec!["*  foo"]), vec!["foo"]);
    assert_eq!(
        strip_for_commit_message(vec!["*  foo", "   bar"]),
        vec!["*  foo", " bar"]
    );
}

#[test]
fn test_leaves_start_if_multiple() {
    assert_eq!(
        strip_for_commit_message(vec!["* foo", "* bar"]),
        vec!["* foo", "* bar"]
    );
    assert_eq!(
        strip_for_commit_message(vec!["* foo", "+ bar"]),
        vec!["* foo", "+ bar"]
    );
    assert_eq!(
        strip_for_commit_message(vec!["* foo", "bar", "* baz"]),
        vec!["* foo", "bar", "* baz"]
    );
}

#[test]
fn test_strip_twice_is_once() {
    let once = strip_for_commit_message(vec!["", "  * foo", "    bar", "* baz", ""]);
    let twice = strip_for_commit_message(once.clone());
    assert_eq!(once, twice);
    let once = strip_for_commit_message(vec!["", "\t* single item", ""]);
    let twice = strip_for_commit_message(once.clone());
    assert_eq!(once, vec!["single item"]);
    assert_eq!(once, twice);
}

#[test]
fn test_sections_keep_line_numbers_in_order() {
    let sections = changes_sections(vec!["", "* a", "", "[ B ]", "* c", "  d"]);
    let all: Vec<usize> = sections
        .iter()
        .flat_map(|s| s.linenos.iter().copied())
        .collect();
    assert_eq!(all, vec![1, 2, 3, 4, 5]);
}

#[test]
fn test_unicode_blank_lines_are_trimmed() {
    assert_eq!(strip_for_commit_message(vec!["\r"]), Vec::<&str>::new());
    assert_eq!(strip_for_commit_message(vec!["\u{c}"]), Vec::<&str>::new());
    assert_eq!(
        strip_for_commit_message(vec!["\u{a0}", "foo", "\u{2028}"]),
        vec!["foo"]
    );
}

#[test]
fn test_unicode_whitespace_before_bullet() {
    assert_eq!(strip_for_commit_message(vec!["\u{a0}* foo"]), vec!["foo"]);
}
