use debian_changelog::parse;
use debian_changelog::ChangeLog;
use debian_changelog::DateTimeParts;
use debian_changelog::GreenNode;
use debian_changelog::SyntaxKind;
use debian_changelog::Urgency;

const CHANGELOG: &str = r#"breezy (3.3.4-1) unstable; urgency=low

  * New upstream release.

 -- Jelmer Vernooĳ <jelmer@debian.org>  Mon, 04 Sep 2023 18:13:45 -0500

breezy (3.3.3-2) unstable; urgency=medium

  * Drop unnecessary dependency on python3-six. Closes: #1039011
  * Drop dependency on cython3-dbg. Closes: #1040544

 -- Jelmer Vernooĳ <jelmer@debian.org>  Sat, 24 Jun 2023 14:58:57 +0100

# Oh, and here is a comment
"#;

#[test]
fn test_parse_simple() {
    let parsed = parse(CHANGELOG);
    assert_eq!(parsed.errors, Vec::<String>::new());
    let root = parsed.root();
    let entries: Vec<_> = root.entries();
    assert_eq!(entries.len(), 2);
    let entry = &entries[0];
    assert_eq!(entry.package(), Some("breezy".into()));
    assert_eq!(
        entry.version(),
        Some("3.3.4-1".parse::<debversion::Version>().unwrap())
    );
    assert_eq!(entry.distributions(), Some(vec!["unstable".into()]));
    assert_eq!(entry.urgency(), Ok(Some(Urgency::Low)));
    assert_eq!(entry.maintainer(), Some("Jelmer Vernooĳ".into()));
    assert_eq!(entry.email(), Some("jelmer@debian.org".into()));
    assert_eq!(
        entry.timestamp(),
        Some("Mon, 04 Sep 2023 18:13:45 -0500".into())
    );
    assert_eq!(
        entry.datetime(),
        Some(DateTimeParts {
            year: 2023,
            month: 9,
            day: 4,
            hour: 18,
            minute: 13,
            second: 45,
            offset_seconds: -5 * 3600,
        })
    );
    let changes_lines: Vec<_> = entry.change_lines();
    assert_eq!(
        changes_lines,
        vec![
            "".to_string(),
            "* New upstream release.".to_string(),
            "".to_string()
        ]
    );

    assert_eq!(parsed.syntax().text(), CHANGELOG);
}

#[test]
fn test_from_io_read() {
    let changelog = r#"breezy (3.3.4-1) unstable; urgency=low

  * New upstream release.

 -- Jelmer Vernooĳ <jelmer@debian.org> Mon, 04 Sep 2023 18:13:45 -0500
"#;

    let input = changelog.as_bytes();
    let input = Box::new(std::io::Cursor::new(input)) as Box<dyn std::io::Read>;
    let parsed = ChangeLog::read(input).unwrap();
    assert_eq!(parsed.to_string(), changelog);
}

#[test]
fn test_empty_input() {
    let parsed = parse("");
    assert_eq!(parsed.errors, Vec::<String>::new());
    let root = parsed.root();
    assert_eq!(root.entries().len(), 0);
    assert_eq!(root.to_string(), "");
}

#[test]
fn test_default_changelog_is_empty() {
    let log = ChangeLog::default();
    assert_eq!(log.entries().len(), 0);
    assert_eq!(log.to_string(), "");
}

#[test]
fn test_comment_after_entry() {
    let text = r#"breezy (3.3.4-1) unstable; urgency=low

  * New upstream release.

 -- Jelmer Vernooĳ <jelmer@debian.org>  Mon, 04 Sep 2023 18:13:45 -0500

# Oh, and here is a comment
"#;
    let parsed = parse(text);
    assert_eq!(parsed.errors, Vec::<String>::new());
    let root = parsed.root();
    assert_eq!(root.entries().len(), 1);
    match parsed.syntax() {
        GreenNode::Branch { children, .. } => {
            let kinds: Vec<SyntaxKind> = children.iter().map(|c| c.kind_of()).collect();
            assert_eq!(
                kinds,
                vec![SyntaxKind::Entry, SyntaxKind::EmptyLine, SyntaxKind::Comment]
            );
        }
        GreenNode::Leaf { .. } => panic!("the root must be a branch"),
    }
    assert_eq!(parsed.syntax().text(), text);
}

#[test]
fn test_bogus_urgency_is_surfaced() {
    let text = "pkg (1.0-1) unstable; urgency=bogus\n\n  * a\n\n -- A B <a@b.c>  Mon, 04 Sep 2023 18:13:45 -0500\n";
    let parsed = parse(text);
    assert_eq!(parsed.errors, Vec::<String>::new());
    let root = parsed.root();
    let entries = root.entries();
    assert_eq!(entries.len(), 1);
    let urgency = entries[0].urgency();
    assert!(urgency.is_err());
    assert_eq!(
        urgency.unwrap_err().to_string(),
        "invalid urgency: bogus\n"
    );
    assert_eq!(parsed.syntax().text(), text);
}

#[test]
fn test_missing_version_emits_diagnostic() {
    let text = "foo bar; urgency=low\n";
    let parsed = parse(text);
    assert!(parsed.errors.len() >= 1);
    assert_eq!(parsed.syntax().text(), text);
}

#[test]
fn test_lossless_on_garbage() {
    for text in [
        "?!\n",
        "\tindented with a tab\n",
        "pkg (1.0\n broken footer <no-end\n",
        "pkg (1.0-1) unstable\n",
        "pkg (1.0-1) unstable; urgency\n",
        "pkg (1.0-1) unstable; urgency=low\n  * a\n --",
    ] {
        let parsed = parse(text);
        assert_eq!(parsed.syntax().text(), text);
    }
}

#[test]
fn test_metadata_pairs_in_order() {
    let text = "pkg (1.0-1) unstable experimental; urgency=low binary-only=yes\n\n  * a\n\n -- A B <a@b.c>  Mon, 04 Sep 2023 18:13:45 -0500\n";
    let parsed = parse(text);
    assert_eq!(parsed.errors, Vec::<String>::new());
    let root = parsed.root();
    let entries = root.entries();
    assert_eq!(entries.len(), 1);
    assert_eq!(
        entries[0].distributions(),
        Some(vec!["unstable".to_string(), "experimental".to_string()])
    );
    // reach the header through the tree to read the raw pairs
    let entry_node = match parsed.syntax() {
        debian_changelog::GreenNode::Branch { children, .. } => children[0].duplicate(),
        _ => panic!("the root must be a branch"),
    };
    let header_node = match &entry_node {
        debian_changelog::GreenNode::Branch { children, .. } => children[0].duplicate(),
        _ => panic!("the entry must be a branch"),
    };
    let header = debian_changelog::EntryHeader::cast(header_node).unwrap();
    let pairs = header.metadata();
    assert_eq!(
        pairs,
        vec![
            ("urgency".to_string(), "low".to_string()),
            ("binary-only".to_string(), "yes".to_string()),
        ]
    );
    assert_eq!(parsed.syntax().text(), text);
}

#[test]
fn test_invalid_version_payload_is_none() {
    let text = "pkg (1.0!!bad) unstable; urgency=low\n";
    let parsed = parse(text);
    let root = parsed.root();
    let entries = root.entries();
    assert_eq!(entries.len(), 1);
    assert_eq!(entries[0].version(), None);
    assert_eq!(entries[0].package(), Some("pkg".into()));
}

#[test]
fn test_malformed_timestamp_gives_no_datetime() {
    let text = "pkg (1.0-1) unstable; urgency=low

  * a change

 -- Someone <x@y.z>  someday soon
";
    let parsed = parse(text);
    let root = parsed.root();
    let entries = root.entries();
    assert_eq!(entries.len(), 1);
    assert_eq!(entries[0].timestamp(), Some("someday soon".into()));
    assert_eq!(entries[0].datetime(), None);
}

#[test]
fn test_strict_parse_rejects_garbage() {
    assert!(ChangeLog::from_str("?!\n").is_err());
    // an entry that never reaches a footer is diagnosed as cut short
    assert!(ChangeLog::from_str("pkg (1.0-1) unstable; urgency=low\n").is_err());
    assert!(ChangeLog::from_str(
        "pkg (1.0-1) unstable; urgency=low\n\n  * a\n\n -- A B <a@b.c>  Mon, 04 Sep 2023 18:13:45 -0500\n"
    )
    .is_ok());
}

#[test]
fn test_read_rejects_garbage() {
    let input = Box::new(std::io::Cursor::new(b"?!\n".to_vec())) as Box<dyn std::io::Read>;
    match ChangeLog::read(input) {
        Ok(_) => panic!("garbage must not parse strictly"),
        Err(err) => assert_eq!(err.kind(), std::io::ErrorKind::InvalidData),
    }
}

#[test]
fn test_urgency_parse_and_render() {
    assert_eq!(Urgency::from_str("low"), Ok(Urgency::Low));
    assert_eq!(Urgency::from_str("MEDIUM"), Ok(Urgency::Medium));
    assert_eq!(Urgency::from_str("High"), Ok(Urgency::High));
    assert_eq!(Urgency::from_str("emergency"), Ok(Urgency::Emergency));
    assert_eq!(Urgency::from_str("CrItIcAl"), Ok(Urgency::Critical));
    assert!(Urgency::from_str("urgent").is_err());
    assert!(Urgency::from_str("").is_err());
    assert_eq!(Urgency::Low.to_string(), "low");
    assert_eq!(Urgency::Emergency.to_string(), "emergency");
}

#[test]
fn test_carriage_return_newlines() {
    let text = "pkg (1.0-1) unstable; urgency=low\r\n  * a\r\n -- A B <a@b.c>  Mon, 04 Sep 2023 18:13:45 -0500\r";
    let parsed = parse(text);
    assert_eq!(parsed.syntax().text(), text);
    let entries = parsed.root().entries();
    assert_eq!(entries.len(), 1);
    assert_eq!(entries[0].package(), Some("pkg".into()));
}

#[test]
fn test_change_lines_with_bare_indent_line() {
    let text = "pkg (1.0-1) unstable; urgency=low\n\n  * first\n  \n    continuation\n\n -- A B <a@b.c>  Mon, 04 Sep 2023 18:13:45 -0500\n";
    let parsed = parse(text);
    assert_eq!(parsed.errors, Vec::<String>::new());
    let entries = parsed.root().entries();
    assert_eq!(entries.len(), 1);
    assert_eq!(
        entries[0].change_lines(),
        vec![
            "".to_string(),
            "* first".to_string(),
            "".to_string(),
            "  continuation".to_string(),
            "".to_string(),
        ]
    );
    assert_eq!(parsed.syntax().text(), text);
}

fn kinds_of(n: &GreenNode) -> Vec<SyntaxKind> {
    match n {
        GreenNode::Branch { children, .. } => children.iter().map(|c| c.kind_of()).collect(),
        GreenNode::Leaf { .. } => vec![],
    }
}

fn child(n: &GreenNode, i: usize) -> &GreenNode {
    match n {
        GreenNode::Branch { children, .. } => &children[i],
        GreenNode::Leaf { .. } => panic!("expected a branch"),
    }
}

#[test]
fn test_parse_simple_tree_shape() {
    let parsed = parse(CHANGELOG);
    assert_eq!(parsed.errors, Vec::<String>::new());
    let root = parsed.syntax();
    assert_eq!(
        kinds_of(root),
        vec![
            SyntaxKind::Entry,
            SyntaxKind::EmptyLine,
            SyntaxKind::Entry,
            SyntaxKind::EmptyLine,
            SyntaxKind::Comment,
        ]
    );
    let entry = child(root, 0);
    assert_eq!(
        kinds_of(entry),
        vec![
            SyntaxKind::EntryHeader,
            SyntaxKind::EmptyLine,
            SyntaxKind::EntryBody,
            SyntaxKind::EmptyLine,
            SyntaxKind::EntryFooter,
        ]
    );
    let header = child(entry, 0);
    assert_eq!(
        kinds_of(header),
        vec![
            SyntaxKind::Identifier,
            SyntaxKind::Whitespace,
            SyntaxKind::Version,
            SyntaxKind::Distributions,
            SyntaxKind::Metadata,
            SyntaxKind::Newline,
        ]
    );
    assert_eq!(child(header, 0).text(), "breezy");
    assert_eq!(child(header, 2).text(), "(3.3.4-1)");
    let distributions = child(header, 3);
    assert_eq!(
        kinds_of(distributions),
        vec![SyntaxKind::Whitespace, SyntaxKind::Identifier]
    );
    assert_eq!(child(distributions, 1).text(), "unstable");
    let metadata = child(header, 4);
    assert_eq!(
        kinds_of(metadata),
        vec![SyntaxKind::Semicolon, SyntaxKind::Whitespace, SyntaxKind::MetadataEntry]
    );
    let pair = child(metadata, 2);
    assert_eq!(
        kinds_of(pair),
        vec![SyntaxKind::MetadataKey, SyntaxKind::Equals, SyntaxKind::MetadataValue]
    );
    assert_eq!(child(pair, 0).text(), "urgency");
    assert_eq!(child(pair, 2).text(), "low");
    let body = child(entry, 2);
    assert_eq!(
        kinds_of(body),
        vec![SyntaxKind::Indent, SyntaxKind::Detail, SyntaxKind::Newline]
    );
    assert_eq!(child(body, 1).text(), "* New upstream release.");
    let footer = child(entry, 4);
    assert_eq!(
        kinds_of(footer),
        vec![
            SyntaxKind::Indent,
            SyntaxKind::Dashes,
            SyntaxKind::Whitespace,
            SyntaxKind::Maintainer,
            SyntaxKind::Whitespace,
            SyntaxKind::Email,
            SyntaxKind::Whitespace,
            SyntaxKind::Timestamp,
            SyntaxKind::Newline,
        ]
    );
    assert_eq!(child(footer, 3).text(), "Jelmer Vernooĳ");
    assert_eq!(child(footer, 5).text(), "<jelmer@debian.org>");
    assert_eq!(child(footer, 7).text(), "Mon, 04 Sep 2023 18:13:45 -0500");
}

fn count_error_branches(n: &GreenNode) -> usize {
    match n {
        GreenNode::Branch { kind, children } => {
            let own = if *kind == SyntaxKind::Error { 1 } else { 0 };
            own + children.iter().map(count_error_branches).sum::<usize>()
        }
        GreenNode::Leaf { .. } => 0,
    }
}

#[test]
fn test_one_error_branch_per_diagnostic() {
    for text in [
        "",
        "foo bar; urgency=low\n",
        "?!\n",
        "pkg (1.0-1) unstable; urgency\n",
        CHANGELOG,
    ] {
        let parsed = parse(text);
        assert_eq!(count_error_branches(parsed.syntax()), parsed.errors.len());
    }
}

#[test]
fn test_strict_reading_of_a_parse() {
    let good = parse(CHANGELOG);
    match good.strict() {
        Ok(log) => assert_eq!(log.to_string(), CHANGELOG),
        Err(_) => panic!("a clean parse must read strictly"),
    }
    let bad = parse("foo bar; urgency=low\n");
    let n_diagnostics = bad.errors.len();
    match bad.strict() {
        Ok(_) => panic!("a diagnosed parse must not read strictly"),
        Err(e) => assert!(n_diagnostics >= 1 && e.to_string().lines().count() == n_diagnostics),
    }
}
