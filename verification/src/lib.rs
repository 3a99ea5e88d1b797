//! A lossless parser for package-changelog texts.
//!
//! The parser builds a concrete syntax tree that keeps every byte of its
//! input — serializing the tree reproduces the text exactly, diagnostics or
//! not — and a typed view layer reads the semantic fields out of it. Two
//! free functions work on an entry's body lines directly: grouping them by
//! author sub-header and normalizing them into a commit message.

use vstd::prelude::*;

pub mod changes;
pub mod error;
pub mod ext;
pub mod lex;
pub mod parse;
pub mod tree;
pub mod urgency;
pub mod view;

pub use crate::changes::changes_by_author;
pub use crate::changes::changes_sections;
pub use crate::changes::strip_for_commit_message;
pub use crate::changes::Section;
pub use crate::error::ParseError;
pub use crate::ext::DateTimeParts;
pub use crate::lex::lex;
pub use crate::lex::Lexer;
pub use crate::parse::parse;
pub use crate::parse::Parse;
pub use crate::tree::GreenNode;
pub use crate::urgency::Urgency;
pub use crate::view::ChangeLog;
pub use crate::view::Entry;
pub use crate::view::EntryBody;
pub use crate::view::EntryFooter;
pub use crate::view::EntryHeader;
pub use crate::view::Maintainer;
pub use crate::view::MetadataEntry;
pub use crate::view::MetadataKey;
pub use crate::view::MetadataValue;
pub use crate::view::Timestamp;

verus! {

/// The closed set of lexical and nodal kinds shared by the lexer, the
/// parser and the syntax tree.
#[derive(Clone, Copy, Debug, PartialEq, Eq, Hash, Structural)]
pub enum SyntaxKind {
    Identifier,
    Whitespace,
    Newline,
    Indent,
    Version,
    Semicolon,
    Equals,
    Detail,
    Dashes,
    Email,
    Text,
    Comment,
    Error,
    Root,
    Entry,
    EntryHeader,
    Distributions,
    Metadata,
    MetadataEntry,
    MetadataKey,
    MetadataValue,
    EntryBody,
    EntryFooter,
    Maintainer,
    Timestamp,
    EmptyLine,
}

/// Kinds that may label a leaf token: everything the lexer can emit.
pub open spec fn is_leaf_kind(k: SyntaxKind) -> bool {
    matches!(k,
        SyntaxKind::Identifier | SyntaxKind::Whitespace | SyntaxKind::Newline
        | SyntaxKind::Indent | SyntaxKind::Version | SyntaxKind::Semicolon
        | SyntaxKind::Equals | SyntaxKind::Detail | SyntaxKind::Dashes
        | SyntaxKind::Email | SyntaxKind::Text | SyntaxKind::Comment
        | SyntaxKind::Error)
}

/// Kinds that may label a branch node. Error branches wrap recovery sites,
/// so the error kind belongs to both families.
pub open spec fn is_branch_kind(k: SyntaxKind) -> bool {
    matches!(k,
        SyntaxKind::Root | SyntaxKind::Entry | SyntaxKind::EntryHeader
        | SyntaxKind::Distributions | SyntaxKind::Metadata
        | SyntaxKind::MetadataEntry | SyntaxKind::MetadataKey
        | SyntaxKind::MetadataValue | SyntaxKind::EntryBody
        | SyntaxKind::EntryFooter | SyntaxKind::Maintainer
        | SyntaxKind::Timestamp | SyntaxKind::EmptyLine | SyntaxKind::Error)
}

} // verus!
