use debian_changelog::lex;
use debian_changelog::SyntaxKind::Comment;
use debian_changelog::SyntaxKind::Dashes;
use debian_changelog::SyntaxKind::Detail;
use debian_changelog::SyntaxKind::Email;
use debian_changelog::SyntaxKind::Equals;
use debian_changelog::SyntaxKind::Error;
use debian_changelog::SyntaxKind::Identifier;
use debian_changelog::SyntaxKind::Indent;
use debian_changelog::SyntaxKind::Newline;
use debian_changelog::SyntaxKind::Semicolon;
use debian_changelog::SyntaxKind::Version;
use debian_changelog::SyntaxKind::Whitespace;
use debian_changelog::SyntaxKind::Text;

#[test]
fn test_empty() {
    assert_eq!(lex(""), vec![]);
}

#[test]
fn lex_test_simple() {
    assert_eq!(
        lex(r#"breezy (3.3.4-1) unstable; urgency=low

  * New upstream release.

 -- Jelmer Vernooĳ <jelmer@debian.org>  Mon, 04 Sep 2023 18:13:45 -0000
"#)
        .iter()
        .map(|(kind, text)| (*kind, text.as_str()))
        .collect::<Vec<_>>(),
        vec![
            (Identifier, "breezy"),
            (Whitespace, " "),
            (Version, "(3.3.4-1)"),
            (Whitespace, " "),
            (Identifier, "unstable"),
            (Semicolon, ";"),
            (Whitespace, " "),
            (Identifier, "urgency"),
            (Equals, "="),
            (Identifier, "low"),
            (Newline, "\n"),
            (Newline, "\n"),
            (Indent, "  "),
            (Detail, "* New upstream release."),
            (Newline, "\n"),
            (Newline, "\n"),
            (Indent, " "),
            (Dashes, "--"),
            (Whitespace, " "),
            (Text, "Jelmer Vernooĳ"),
            (Whitespace, " "),
            (Email, "<jelmer@debian.org>"),
            (Whitespace, "  "),
            (Text, "Mon, 04 Sep 2023 18:13:45 -0000"),
            (Newline, "\n")
        ]
    );
}

#[test]
fn test_lex_comment_includes_newline() {
    assert_eq!(
        lex("# a comment\n")
            .iter()
            .map(|(kind, text)| (*kind, text.as_str()))
            .collect::<Vec<_>>(),
        vec![(Comment, "# a comment\n")]
    );
}

#[test]
fn test_lex_covers_every_character() {
    // Unrecognized characters, a tab at line start and an unterminated
    // email all become error tokens without losing a byte.
    for input in [
        "\tweird tab line\n",
        "päckage (1.0 broken\n",
        " -- Name <unterminated\n",
        "?!\n\n??",
        "a (1)\u{7f}",
    ] {
        let rebuilt: String = lex(input).iter().map(|(_, text)| text.as_str()).collect();
        assert_eq!(rebuilt, input);
        assert!(lex(input).iter().all(|(_, text)| !text.is_empty()));
    }
}

#[test]
fn test_lex_unterminated_version_is_error() {
    let toks = lex("pkg (1.0; urgency=low\n");
    // the stopping semicolon is folded into the error token
    assert!(toks.iter().any(|(kind, text)| *kind == Error && text == "(1.0;"));
    let rebuilt: String = toks.iter().map(|(_, text)| text.as_str()).collect();
    assert_eq!(rebuilt, "pkg (1.0; urgency=low\n");
}
