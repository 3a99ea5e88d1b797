//! The typed overlay: lenses over syntax nodes that pull out the semantic
//! fields of a changelog — package, version, distributions, urgency,
//! maintainer, email, timestamp and change lines.
//!
//! Every accessor is specified against the node's model: what it returns is
//! exactly what the corresponding walk over the model finds.

use vstd::prelude::*;
use vstd::string::StrSliceExecFns;

use crate::error::ParseError;
use crate::ext::is_changelog_datetime;
use crate::ext::is_debian_version;
use crate::ext::parse_time_string;
use crate::ext::parse_version;
use crate::ext::read_all;
use crate::ext::DateTimeParts;
use crate::parse::parse;
use crate::parse::Parse;
use crate::tree::lemma_models_of_index;
use crate::tree::lemma_models_of_len;
use crate::tree::models_of;
use crate::tree::GreenNode;
use crate::tree::TreeModel;
use crate::urgency::urgency_of;
use crate::urgency::Urgency;
use crate::SyntaxKind;

verus! {

/// A branch's children; a leaf has none.
pub open spec fn children_of(m: TreeModel) -> Seq<TreeModel> {
    match m {
        TreeModel::Branch { children, .. } => children,
        TreeModel::Leaf { .. } => Seq::empty(),
    }
}

/// The text of the first leaf child of kind `k`.
pub open spec fn first_token_text(cs: Seq<TreeModel>, k: SyntaxKind) -> Option<Seq<char>>
    decreases cs.len(),
{
    if cs.len() == 0 {
        None
    } else {
        match cs.first() {
            TreeModel::Leaf { kind, text } => if kind == k {
                Some(text)
            } else {
                first_token_text(cs.drop_first(), k)
            },
            TreeModel::Branch { .. } => first_token_text(cs.drop_first(), k),
        }
    }
}

/// The first branch child of kind `k`.
pub open spec fn first_node_of(cs: Seq<TreeModel>, k: SyntaxKind) -> Option<TreeModel>
    decreases cs.len(),
{
    if cs.len() == 0 {
        None
    } else {
        match cs.first() {
            TreeModel::Branch { kind, .. } => if kind == k {
                Some(cs.first())
            } else {
                first_node_of(cs.drop_first(), k)
            },
            TreeModel::Leaf { .. } => first_node_of(cs.drop_first(), k),
        }
    }
}

/// All branch children of kind `k`, in order.
pub open spec fn nodes_of(cs: Seq<TreeModel>, k: SyntaxKind) -> Seq<TreeModel>
    decreases cs.len(),
{
    if cs.len() == 0 {
        Seq::empty()
    } else {
        let rest = nodes_of(cs.drop_first(), k);
        match cs.first() {
            TreeModel::Branch { kind, .. } => if kind == k {
                seq![cs.first()] + rest
            } else {
                rest
            },
            TreeModel::Leaf { .. } => rest,
        }
    }
}

/// The texts of all leaf children of kind `k`, in order.
pub open spec fn token_texts_of(cs: Seq<TreeModel>, k: SyntaxKind) -> Seq<Seq<char>>
    decreases cs.len(),
{
    if cs.len() == 0 {
        Seq::empty()
    } else {
        let rest = token_texts_of(cs.drop_first(), k);
        match cs.first() {
            TreeModel::Leaf { kind, text } => if kind == k {
                seq![text] + rest
            } else {
                rest
            },
            TreeModel::Branch { .. } => rest,
        }
    }
}

/// The texts of all leaf children of kind `k`, concatenated.
pub open spec fn concat_token_texts(cs: Seq<TreeModel>, k: SyntaxKind) -> Seq<char>
    decreases cs.len(),
{
    if cs.len() == 0 {
        Seq::empty()
    } else {
        let rest = concat_token_texts(cs.drop_first(), k);
        match cs.first() {
            TreeModel::Leaf { kind, text } => if kind == k {
                text + rest
            } else {
                rest
            },
            TreeModel::Branch { .. } => rest,
        }
    }
}

/// The payload of a delimited token: the text inside the delimiters, absent
/// unless both are in place.
pub open spec fn unwrapped(t: Seq<char>, open_c: char, close_c: char) -> Option<Seq<char>> {
    if t.len() >= 2 && t.first() == open_c && t.last() == close_c {
        Some(t.subrange(1, t.len() - 1))
    } else {
        None
    }
}

/// Find the text of the first leaf child of kind `k` of `n`.
#[verifier::loop_isolation(false)]
fn find_token_text(n: &GreenNode, k: SyntaxKind) -> (r: Option<String>)
    ensures
        match first_token_text(children_of(n.model()), k) {
            Some(t) => r matches Some(s) && s@ == t,
            None => r is None,
        },
{
    match n {
        GreenNode::Leaf { .. } => None,
        GreenNode::Branch { children, .. } => {
            let ghost ms = models_of(children@);
            proof {
                lemma_models_of_len(children@);
            }
            let mut i: usize = 0;
            proof {
                assert(ms.skip(0) =~= ms);
            }
            while i < children.len()
                invariant
                    i <= children.len(),
                    first_token_text(ms, k) == first_token_text(ms.skip(i as int), k),
                decreases children.len() - i,
            {
                proof {
                    lemma_models_of_index(children@, i as int);
                    assert(ms.skip(i as int).first() == ms[i as int]);
                    assert(ms.skip(i as int).drop_first() =~= ms.skip(i + 1));
                }
                match &children[i] {
                    GreenNode::Leaf { kind, text } => {
                        if *kind == k {
                            return Some(text.clone());
                        }
                    },
                    GreenNode::Branch { .. } => {},
                }
                i = i + 1;
            }
            proof {
                assert(ms.skip(ms.len() as int) =~= Seq::empty());
            }
            None
        },
    }
}

/// Find the first branch child of kind `k` of `n`, as its own tree.
#[verifier::loop_isolation(false)]
fn find_node(n: &GreenNode, k: SyntaxKind) -> (r: Option<GreenNode>)
    ensures
        match first_node_of(children_of(n.model()), k) {
            Some(m) => r matches Some(g) && g.model() == m,
            None => r is None,
        },
{
    match n {
        GreenNode::Leaf { .. } => None,
        GreenNode::Branch { children, .. } => {
            let ghost ms = models_of(children@);
            proof {
                lemma_models_of_len(children@);
            }
            let mut i: usize = 0;
            proof {
                assert(ms.skip(0) =~= ms);
            }
            while i < children.len()
                invariant
                    i <= children.len(),
                    first_node_of(ms, k) == first_node_of(ms.skip(i as int), k),
                decreases children.len() - i,
            {
                proof {
                    lemma_models_of_index(children@, i as int);
                    assert(ms.skip(i as int).first() == ms[i as int]);
                    assert(ms.skip(i as int).drop_first() =~= ms.skip(i + 1));
                }
                let child = &children[i];
                let is_hit = match child {
                    GreenNode::Branch { kind, .. } => *kind == k,
                    GreenNode::Leaf { .. } => false,
                };
                if is_hit {
                    return Some(child.duplicate());
                }
                i = i + 1;
            }
            proof {
                assert(ms.skip(ms.len() as int) =~= Seq::empty());
            }
            None
        },
    }
}

/// Collect every branch child of kind `k` of `n`, each as its own tree.
#[verifier::loop_isolation(false)]
fn collect_nodes(n: &GreenNode, k: SyntaxKind) -> (r: Vec<GreenNode>)
    ensures
        ({
            let found = nodes_of(children_of(n.model()), k);
            r@.len() == found.len() && forall|j: int|
                0 <= j < r@.len() ==> (#[trigger] r@[j]).model() == found[j]
        }),
{
    let mut out: Vec<GreenNode> = Vec::new();
    match n {
        GreenNode::Leaf { .. } => out,
        GreenNode::Branch { children, .. } => {
            let ghost ms = models_of(children@);
            proof {
                lemma_models_of_len(children@);
            }
            let ghost found = nodes_of(ms, k);
            let mut i: usize = 0;
            proof {
                assert(ms.skip(0) =~= ms);
            }
            while i < children.len()
                invariant
                    i <= children.len(),
                    found == nodes_of(ms, k),
                    out@.len() + nodes_of(ms.skip(i as int), k).len() == found.len(),
                    forall|j: int|
                        0 <= j < out@.len() ==> (#[trigger] out@[j]).model() == found[j],
                    forall|j: int|
                        0 <= j < nodes_of(ms.skip(i as int), k).len() ==> nodes_of(
                            ms.skip(i as int),
                            k,
                        )[j] == found[out@.len() + j],
                decreases children.len() - i,
            {
                proof {
                    lemma_models_of_index(children@, i as int);
                    assert(ms.skip(i as int).first() == ms[i as int]);
                    assert(ms.skip(i as int).drop_first() =~= ms.skip(i + 1));
                }
                let child = &children[i];
                let is_hit = match child {
                    GreenNode::Branch { kind, .. } => *kind == k,
                    GreenNode::Leaf { .. } => false,
                };
                if is_hit {
                    proof {
                        assert(nodes_of(ms.skip(i as int), k) =~= seq![ms[i as int]] + nodes_of(
                            ms.skip(i + 1),
                            k,
                        ));
                    }
                    let dup = child.duplicate();
                    let ghost prev = out@;
                    out.push(dup);
                    proof {
                        let tail = nodes_of(ms.skip(i + 1), k);
                        assert(nodes_of(ms.skip(i as int), k)[0] == ms[i as int]);
                        assert(found[prev.len() as int] == ms[i as int]);
                        assert(out@[prev.len() as int] == dup);
                        let base = out@.len() as int;
                        assert forall|j: int| 0 <= j < tail.len() implies tail[j] == found[base + j] by {
                            assert(nodes_of(ms.skip(i as int), k)[j + 1] == tail[j]);
                        }
                    }
                }
                i = i + 1;
            }
            proof {
                assert(ms.skip(ms.len() as int) =~= Seq::empty());
            }
            out
        },
    }
}

/// The views of a vector of strings.
pub open spec fn strs_model(v: Seq<String>) -> Seq<Seq<char>> {
    v.map_values(|s: String| s@)
}

/// Collect the texts of every leaf child of kind `k` of `n`.
#[verifier::loop_isolation(false)]
fn collect_token_texts(n: &GreenNode, k: SyntaxKind) -> (r: Vec<String>)
    ensures
        strs_model(r@) == token_texts_of(children_of(n.model()), k),
{
    let mut out: Vec<String> = Vec::new();
    match n {
        GreenNode::Leaf { .. } => {
            proof {
                assert(strs_model(out@) =~= token_texts_of(children_of(n.model()), k));
            }
            out
        },
        GreenNode::Branch { children, .. } => {
            let ghost ms = models_of(children@);
            proof {
                lemma_models_of_len(children@);
            }
            let mut i: usize = 0;
            proof {
                assert(ms.skip(0) =~= ms);
                assert(strs_model(out@) =~= Seq::empty());
                assert(strs_model(out@) + token_texts_of(ms, k) =~= token_texts_of(ms, k));
            }
            while i < children.len()
                invariant
                    i <= children.len(),
                    strs_model(out@) + token_texts_of(ms.skip(i as int), k) =~= token_texts_of(
                        ms,
                        k,
                    ),
                decreases children.len() - i,
            {
                proof {
                    lemma_models_of_index(children@, i as int);
                    assert(ms.skip(i as int).first() == ms[i as int]);
                    assert(ms.skip(i as int).drop_first() =~= ms.skip(i + 1));
                }
                match &children[i] {
                    GreenNode::Leaf { kind, text } => {
                        if *kind == k {
                            let t = text.clone();
                            proof {
                                assert(strs_model(out@.push(t)) =~= strs_model(out@) + seq![t@]);
                            }
                            out.push(t);
                        }
                    },
                    GreenNode::Branch { .. } => {},
                }
                i = i + 1;
            }
            proof {
                assert(ms.skip(ms.len() as int) =~= Seq::empty());
                assert(strs_model(out@) + token_texts_of(ms.skip(ms.len() as int), k)
                    =~= strs_model(out@));
            }
            out
        },
    }
}

/// Concatenate the texts of every leaf child of kind `k` of `n`.
#[verifier::loop_isolation(false)]
fn concat_tokens(n: &GreenNode, k: SyntaxKind) -> (r: String)
    ensures
        r@ == concat_token_texts(children_of(n.model()), k),
{
    let mut out = String::new();
    match n {
        GreenNode::Leaf { .. } => out,
        GreenNode::Branch { children, .. } => {
            let ghost ms = models_of(children@);
            proof {
                lemma_models_of_len(children@);
            }
            let mut i: usize = 0;
            proof {
                assert(ms.skip(0) =~= ms);
                assert(out@ + concat_token_texts(ms, k) =~= concat_token_texts(ms, k));
            }
            while i < children.len()
                invariant
                    i <= children.len(),
                    out@ + concat_token_texts(ms.skip(i as int), k) =~= concat_token_texts(ms, k),
                decreases children.len() - i,
            {
                proof {
                    lemma_models_of_index(children@, i as int);
                    assert(ms.skip(i as int).first() == ms[i as int]);
                    assert(ms.skip(i as int).drop_first() =~= ms.skip(i + 1));
                }
                match &children[i] {
                    GreenNode::Leaf { kind, text } => {
                        if *kind == k {
                            out.append(text.as_str());
                        }
                    },
                    GreenNode::Branch { .. } => {},
                }
                i = i + 1;
            }
            proof {
                assert(ms.skip(ms.len() as int) =~= Seq::empty());
            }
            out
        },
    }
}

/// The package name of a header: its first identifier token.
pub open spec fn header_package(h: TreeModel) -> Option<Seq<char>> {
    first_token_text(children_of(h), SyntaxKind::Identifier)
}

/// The version payload of a header: the first version token with its
/// parentheses stripped, absent if the token is missing or unclosed.
pub open spec fn header_version_text(h: TreeModel) -> Option<Seq<char>> {
    match first_token_text(children_of(h), SyntaxKind::Version) {
        Some(t) => unwrapped(t, '(', ')'),
        None => None,
    }
}

/// The distribution names of a header, in order.
pub open spec fn header_distributions(h: TreeModel) -> Option<Seq<Seq<char>>> {
    match first_node_of(children_of(h), SyntaxKind::Distributions) {
        Some(d) => Some(token_texts_of(children_of(d), SyntaxKind::Identifier)),
        None => None,
    }
}

/// The key text of a metadata pair node.
pub open spec fn node_key(me: TreeModel) -> Option<Seq<char>> {
    match first_node_of(children_of(me), SyntaxKind::MetadataKey) {
        Some(n) => Some(n.text()),
        None => None,
    }
}

/// The value text of a metadata pair node.
pub open spec fn node_value(me: TreeModel) -> Option<Seq<char>> {
    match first_node_of(children_of(me), SyntaxKind::MetadataValue) {
        Some(n) => Some(n.text()),
        None => None,
    }
}

/// The complete key/value pairs among a metadata node's children, in order.
pub open spec fn metadata_pairs(cs: Seq<TreeModel>) -> Seq<(Seq<char>, Seq<char>)>
    decreases cs.len(),
{
    if cs.len() == 0 {
        Seq::empty()
    } else {
        let rest = metadata_pairs(cs.drop_first());
        let c = cs.first();
        if c is Branch && c.kind() == SyntaxKind::MetadataEntry {
            match (node_key(c), node_value(c)) {
                (Some(k), Some(v)) => seq![(k, v)] + rest,
                _ => rest,
            }
        } else {
            rest
        }
    }
}

/// The metadata pairs of a header.
pub open spec fn header_metadata(h: TreeModel) -> Seq<(Seq<char>, Seq<char>)> {
    match first_node_of(children_of(h), SyntaxKind::Metadata) {
        Some(m) => metadata_pairs(children_of(m)),
        None => Seq::empty(),
    }
}

/// The value of the first `urgency` pair.
pub open spec fn lookup_urgency(pairs: Seq<(Seq<char>, Seq<char>)>) -> Option<Seq<char>>
    decreases pairs.len(),
{
    if pairs.len() == 0 {
        None
    } else if pairs.first().0 == "urgency"@ {
        Some(pairs.first().1)
    } else {
        lookup_urgency(pairs.drop_first())
    }
}

/// The email payload of a footer: the first email token with its angle
/// brackets stripped.
pub open spec fn footer_email_text(f: TreeModel) -> Option<Seq<char>> {
    match first_token_text(children_of(f), SyntaxKind::Email) {
        Some(t) => unwrapped(t, '<', '>'),
        None => None,
    }
}

/// The maintainer name of a footer: the text of its maintainer node.
pub open spec fn footer_maintainer(f: TreeModel) -> Option<Seq<char>> {
    match first_node_of(children_of(f), SyntaxKind::Maintainer) {
        Some(n) => Some(n.text()),
        None => None,
    }
}

/// The timestamp of a footer: the text of its timestamp node.
pub open spec fn footer_timestamp(f: TreeModel) -> Option<Seq<char>> {
    match first_node_of(children_of(f), SyntaxKind::Timestamp) {
        Some(n) => Some(n.text()),
        None => None,
    }
}

/// The change text of one body line: its detail tokens, concatenated.
pub open spec fn body_text(b: TreeModel) -> Seq<char> {
    concat_token_texts(children_of(b), SyntaxKind::Detail)
}

/// One line per body node and an empty line per blank line, in order.
pub open spec fn change_lines_of(cs: Seq<TreeModel>) -> Seq<Seq<char>>
    decreases cs.len(),
{
    if cs.len() == 0 {
        Seq::empty()
    } else {
        let rest = change_lines_of(cs.drop_first());
        let c = cs.first();
        if c is Branch && c.kind() == SyntaxKind::EntryBody {
            seq![body_text(c)] + rest
        } else if c is Branch && c.kind() == SyntaxKind::EmptyLine {
            seq![Seq::<char>::empty()] + rest
        } else {
            rest
        }
    }
}

pub open spec fn entry_header_of(e: TreeModel) -> Option<TreeModel> {
    first_node_of(children_of(e), SyntaxKind::EntryHeader)
}

pub open spec fn entry_footer_of(e: TreeModel) -> Option<TreeModel> {
    first_node_of(children_of(e), SyntaxKind::EntryFooter)
}

/// The views of a vector of string pairs.
pub open spec fn pairs_model(v: Seq<(String, String)>) -> Seq<(Seq<char>, Seq<char>)> {
    v.map_values(|p: (String, String)| (p.0@, p.1@))
}

/// Collect the change lines of an entry node: one string per body line,
/// an empty string per blank line.
#[verifier::loop_isolation(false)]
fn collect_change_lines(n: &GreenNode) -> (r: Vec<String>)
    ensures
        strs_model(r@) == change_lines_of(children_of(n.model())),
{
    let mut out: Vec<String> = Vec::new();
    match n {
        GreenNode::Leaf { .. } => {
            proof {
                assert(strs_model(out@) =~= change_lines_of(children_of(n.model())));
            }
            out
        },
        GreenNode::Branch { children, .. } => {
            let ghost ms = models_of(children@);
            proof {
                lemma_models_of_len(children@);
            }
            let mut i: usize = 0;
            proof {
                assert(ms.skip(0) =~= ms);
                assert(strs_model(out@) =~= Seq::<Seq<char>>::empty());
                assert(strs_model(out@) + change_lines_of(ms) =~= change_lines_of(ms));
            }
            while i < children.len()
                invariant
                    i <= children.len(),
                    strs_model(out@) + change_lines_of(ms.skip(i as int)) =~= change_lines_of(ms),
                decreases children.len() - i,
            {
                proof {
                    lemma_models_of_index(children@, i as int);
                    assert(ms.skip(i as int).first() == ms[i as int]);
                    assert(ms.skip(i as int).drop_first() =~= ms.skip(i + 1));
                }
                let child = &children[i];
                let is_branch = matches!(child, GreenNode::Branch { .. });
                if is_branch && matches!(child.kind_of(), SyntaxKind::EntryBody) {
                    let line = concat_tokens(child, SyntaxKind::Detail);
                    proof {
                        assert(strs_model(out@.push(line)) =~= strs_model(out@) + seq![line@]);
                    }
                    out.push(line);
                } else if is_branch && matches!(child.kind_of(), SyntaxKind::EmptyLine) {
                    let line = String::new();
                    proof {
                        assert(strs_model(out@.push(line)) =~= strs_model(out@) + seq![line@]);
                    }
                    out.push(line);
                }
                i = i + 1;
            }
            proof {
                assert(ms.skip(ms.len() as int) =~= Seq::empty());
                assert(strs_model(out@) + change_lines_of(ms.skip(ms.len() as int)) =~= strs_model(
                    out@,
                ));
            }
            out
        },
    }
}

/// Collect the complete metadata pairs of a metadata node.
#[verifier::loop_isolation(false)]
fn collect_metadata_pairs(n: &GreenNode) -> (r: Vec<(String, String)>)
    ensures
        pairs_model(r@) == metadata_pairs(children_of(n.model())),
{
    let mut out: Vec<(String, String)> = Vec::new();
    match n {
        GreenNode::Leaf { .. } => {
            proof {
                assert(pairs_model(out@) =~= metadata_pairs(children_of(n.model())));
            }
            out
        },
        GreenNode::Branch { children, .. } => {
            let ghost ms = models_of(children@);
            proof {
                lemma_models_of_len(children@);
            }
            let mut i: usize = 0;
            proof {
                assert(ms.skip(0) =~= ms);
                assert(pairs_model(out@) =~= Seq::<(Seq<char>, Seq<char>)>::empty());
                assert(pairs_model(out@) + metadata_pairs(ms) =~= metadata_pairs(ms));
            }
            while i < children.len()
                invariant
                    i <= children.len(),
                    pairs_model(out@) + metadata_pairs(ms.skip(i as int)) =~= metadata_pairs(ms),
                decreases children.len() - i,
            {
                proof {
                    lemma_models_of_index(children@, i as int);
                    assert(ms.skip(i as int).first() == ms[i as int]);
                    assert(ms.skip(i as int).drop_first() =~= ms.skip(i + 1));
                }
                let child = &children[i];
                let is_entry = match child {
                    GreenNode::Branch { kind, .. } => *kind == SyntaxKind::MetadataEntry,
                    GreenNode::Leaf { .. } => false,
                };
                if is_entry {
                    let key = find_node(child, SyntaxKind::MetadataKey);
                    let value = find_node(child, SyntaxKind::MetadataValue);
                    match (key, value) {
                        (Some(kn), Some(vn)) => {
                            let pair = (kn.text(), vn.text());
                            proof {
                                assert(pairs_model(out@.push(pair)) =~= pairs_model(out@) + seq![
                                    (pair.0@, pair.1@),
                                ]);
                            }
                            out.push(pair);
                        },
                        _ => {},
                    }
                }
                i = i + 1;
            }
            proof {
                assert(ms.skip(ms.len() as int) =~= Seq::empty());
                assert(pairs_model(out@) + metadata_pairs(ms.skip(ms.len() as int)) =~= pairs_model(
                    out@,
                ));
            }
            out
        },
    }
}

/// The root view of a parsed changelog.
pub struct ChangeLog(pub GreenNode);

/// One changelog record: header, body lines, footer.
pub struct Entry(pub GreenNode);

/// The header line of an entry.
pub struct EntryHeader(pub GreenNode);

/// One body line of an entry.
pub struct EntryBody(pub GreenNode);

/// The signature line of an entry.
pub struct EntryFooter(pub GreenNode);

/// The maintainer name inside a footer.
pub struct Maintainer(pub GreenNode);

/// The timestamp inside a footer.
pub struct Timestamp(pub GreenNode);

/// One `key=value` pair inside a header's metadata.
pub struct MetadataEntry(pub GreenNode);

/// The key of a metadata pair.
pub struct MetadataKey(pub GreenNode);

/// The value of a metadata pair.
pub struct MetadataValue(pub GreenNode);

impl Parse {
    /// The tree, for walking.
    pub fn syntax(&self) -> (n: &GreenNode)
        ensures
            n.model() == self.green_node.model(),
    {
        &self.green_node
    }

    /// The root view over the tree.
    pub fn root(&self) -> (c: ChangeLog)
        ensures
            c.0.model() == self.green_node.model(),
    {
        ChangeLog(self.green_node.duplicate())
    }

    /// The strict reading of a parse: the tree exactly when no diagnostic
    /// came, and otherwise exactly the diagnostics that did.
    pub fn strict(self) -> (r: Result<ChangeLog, ParseError>)
        ensures
            self.errors@.len() == 0 ==> (r matches Ok(c) && c.0.model()
                == self.green_node.model()),
            self.errors@.len() > 0 ==> (r matches Err(e) && e.messages()
                == self.errors.deep_view()),
    {
        if self.errors.len() == 0 {
            Ok(ChangeLog(self.green_node))
        } else {
            Err(ParseError(self.errors))
        }
    }
}

impl ChangeLog {
    /// An empty changelog: a root with no children.
    pub fn new() -> (c: ChangeLog)
        ensures
            c.0.model() == (TreeModel::Branch {
                kind: SyntaxKind::Root,
                children: Seq::empty(),
            }),
    {
        let children: Vec<GreenNode> = Vec::new();
        proof {
            assert(models_of(children@) =~= Seq::<TreeModel>::empty());
        }
        let node = GreenNode::Branch { kind: SyntaxKind::Root, children };
        proof {
            assert(node.model() =~= (TreeModel::Branch {
                kind: SyntaxKind::Root,
                children: Seq::empty(),
            }));
        }
        ChangeLog(node)
    }

    pub fn cast(node: GreenNode) -> (r: Option<ChangeLog>)
        ensures
            match r {
                Some(v) => v.0 == node && node.model().kind() == SyntaxKind::Root,
                None => node.model().kind() != SyntaxKind::Root,
            },
    {
        if matches!(node.kind_of(), SyntaxKind::Root) {
            Some(ChangeLog(node))
        } else {
            None
        }
    }

    /// All entries of the changelog, in document order.
    #[verifier::loop_isolation(false)]
    pub fn entries(&self) -> (r: Vec<Entry>)
        ensures
            ({
                let found = nodes_of(children_of(self.0.model()), SyntaxKind::Entry);
                r@.len() == found.len() && forall|j: int|
                    0 <= j < r@.len() ==> (#[trigger] r@[j]).0.model() == found[j]
            }),
    {
        let nodes = collect_nodes(&self.0, SyntaxKind::Entry);
        let ghost found = nodes_of(children_of(self.0.model()), SyntaxKind::Entry);
        let mut out: Vec<Entry> = Vec::new();
        let mut i: usize = 0;
        while i < nodes.len()
            invariant
                i <= nodes.len(),
                out@.len() == i,
                forall|j: int| 0 <= j < i ==> (#[trigger] out@[j]).0.model() == found[j],
            decreases nodes.len() - i,
        {
            out.push(Entry(nodes[i].duplicate()));
            i = i + 1;
        }
        out
    }

    /// Serialize the tree: exactly the text it was parsed from.
    pub fn to_string(&self) -> (r: String)
        ensures
            r@ == self.0.model().text(),
    {
        self.0.text()
    }

    /// Parse a changelog, strictly: success comes exactly when parsing the
    /// text yields no diagnostic. A returned tree is lossless, well formed,
    /// well shaped and free of error branches; a returned error carries the
    /// parse's diagnostics.
    pub fn from_str(s: &str) -> (r: Result<ChangeLog, ParseError>)
        ensures
            r is Ok <==> crate::parse::parse_error_total(s@) == 0,
            r matches Ok(c) ==> c.0.model().text() == s@ && c.0.model().wf() && c.0.model().kind()
                == SyntaxKind::Root && crate::parse::root_shape(c.0.model())
                && crate::parse::error_count(c.0.model()) == 0,
            r matches Err(e) ==> e.messages().len() == crate::parse::parse_error_total(s@)
                && e.messages().len() > 0,
            s@.len() == 0 ==> (r matches Ok(c) && c.0.model() == (TreeModel::Branch {
                kind: SyntaxKind::Root,
                children: Seq::empty(),
            })),
    {
        parse(s).strict()
    }

    /// Read a whole stream and parse it strictly; a diagnosed parse comes
    /// back as an invalid-data error.
    pub fn read<R: std::io::Read>(mut r: R) -> (res: Result<ChangeLog, std::io::Error>)
        ensures
            res matches Ok(c) ==> c.0.model().wf() && c.0.model().kind() == SyntaxKind::Root
                && crate::parse::root_shape(c.0.model()) && crate::parse::error_count(c.0.model())
                == 0,
    {
        match read_all(&mut r) {
            Ok(text) => match ChangeLog::from_str(text.as_str()) {
                Ok(c) => Ok(c),
                Err(e) => Err(crate::ext::invalid_data_error(e.to_string())),
            },
            Err(e) => Err(e),
        }
    }
}

impl Default for ChangeLog {
    /// The empty changelog.
    fn default() -> (c: Self)
        ensures
            c.0.model() == (TreeModel::Branch {
                kind: SyntaxKind::Root,
                children: Seq::empty(),
            }),
    {
        ChangeLog::new()
    }
}

impl Entry {
    pub fn cast(node: GreenNode) -> (r: Option<Entry>)
        ensures
            match r {
                Some(v) => v.0 == node && node.model().kind() == SyntaxKind::Entry,
                None => node.model().kind() != SyntaxKind::Entry,
            },
    {
        if matches!(node.kind_of(), SyntaxKind::Entry) {
            Some(Entry(node))
        } else {
            None
        }
    }

    /// The entry's own text.
    pub fn to_string(&self) -> (r: String)
        ensures
            r@ == self.0.model().text(),
    {
        self.0.text()
    }

    fn header(&self) -> (r: Option<EntryHeader>)
        ensures
            match entry_header_of(self.0.model()) {
                Some(h) => r matches Some(v) && v.0.model() == h,
                None => r is None,
            },
    {
        match find_node(&self.0, SyntaxKind::EntryHeader) {
            Some(n) => Some(EntryHeader(n)),
            None => None,
        }
    }

    fn footer(&self) -> (r: Option<EntryFooter>)
        ensures
            match entry_footer_of(self.0.model()) {
                Some(f) => r matches Some(v) && v.0.model() == f,
                None => r is None,
            },
    {
        match find_node(&self.0, SyntaxKind::EntryFooter) {
            Some(n) => Some(EntryFooter(n)),
            None => None,
        }
    }

    /// The package name, if the header has one.
    pub fn package(&self) -> (r: Option<String>)
        ensures
            match entry_header_of(self.0.model()) {
                Some(h) => match header_package(h) {
                    Some(t) => r matches Some(s) && s@ == t,
                    None => r is None,
                },
                None => r is None,
            },
    {
        match self.header() {
            Some(h) => h.package(),
            None => None,
        }
    }

    /// The version, parsed by the version library: present exactly when the
    /// header carries a well-parenthesized version text that the library
    /// accepts.
    pub fn version(&self) -> (r: Option<debversion::Version>)
        ensures
            r is Some <==> (entry_header_of(self.0.model()) matches Some(h)
                && header_version_text(h) matches Some(v) && is_debian_version(v)),
    {
        match self.header() {
            Some(h) => h.version(),
            None => None,
        }
    }

    /// The distribution names, if the header has a distributions node.
    pub fn distributions(&self) -> (r: Option<Vec<String>>)
        ensures
            match entry_header_of(self.0.model()) {
                Some(h) => match header_distributions(h) {
                    Some(ds) => r matches Some(v) && strs_model(v@) == ds,
                    None => r is None,
                },
                None => r is None,
            },
    {
        match self.header() {
            Some(h) => h.distributions(),
            None => None,
        }
    }

    /// The body lines of this entry, as views.
    #[verifier::loop_isolation(false)]
    pub fn changes(&self) -> (r: Vec<EntryBody>)
        ensures
            ({
                let found = nodes_of(children_of(self.0.model()), SyntaxKind::EntryBody);
                r@.len() == found.len() && forall|j: int|
                    0 <= j < r@.len() ==> (#[trigger] r@[j]).0.model() == found[j]
            }),
    {
        let nodes = collect_nodes(&self.0, SyntaxKind::EntryBody);
        let ghost found = nodes_of(children_of(self.0.model()), SyntaxKind::EntryBody);
        let mut out: Vec<EntryBody> = Vec::new();
        let mut i: usize = 0;
        while i < nodes.len()
            invariant
                i <= nodes.len(),
                out@.len() == i,
                forall|j: int| 0 <= j < i ==> (#[trigger] out@[j]).0.model() == found[j],
            decreases nodes.len() - i,
        {
            out.push(EntryBody(nodes[i].duplicate()));
            i = i + 1;
        }
        out
    }

    /// The maintainer's email, if the footer has a delimited one.
    pub fn email(&self) -> (r: Option<String>)
        ensures
            match entry_footer_of(self.0.model()) {
                Some(f) => match footer_email_text(f) {
                    Some(t) => r matches Some(s) && s@ == t,
                    None => r is None,
                },
                None => r is None,
            },
    {
        match self.footer() {
            Some(f) => f.email(),
            None => None,
        }
    }

    /// The maintainer's name, if the footer has one.
    pub fn maintainer(&self) -> (r: Option<String>)
        ensures
            match entry_footer_of(self.0.model()) {
                Some(f) => match footer_maintainer(f) {
                    Some(t) => r matches Some(s) && s@ == t,
                    None => r is None,
                },
                None => r is None,
            },
    {
        match self.footer() {
            Some(f) => f.maintainer(),
            None => None,
        }
    }

    /// The timestamp text, if the footer has one.
    pub fn timestamp(&self) -> (r: Option<String>)
        ensures
            match entry_footer_of(self.0.model()) {
                Some(f) => match footer_timestamp(f) {
                    Some(t) => r matches Some(s) && s@ == t,
                    None => r is None,
                },
                None => r is None,
            },
    {
        match self.footer() {
            Some(f) => f.timestamp(),
            None => None,
        }
    }

    /// The timestamp, parsed by the date library: present exactly when the
    /// footer's timestamp text is in the changelog's fixed format.
    pub fn datetime(&self) -> (r: Option<DateTimeParts>)
        ensures
            r is Some <==> (entry_footer_of(self.0.model()) matches Some(f)
                && footer_timestamp(f) matches Some(t) && is_changelog_datetime(t)),
            r matches Some(d) ==> (entry_footer_of(self.0.model()) matches Some(f)
                && footer_timestamp(f) matches Some(t) && d == crate::ext::changelog_datetime_of(
                t,
            )),
    {
        match self.timestamp() {
            Some(ts) => parse_time_string(ts.as_str()),
            None => None,
        }
    }

    /// The entry's urgency: absent without an `urgency` key, an error when
    /// the value is not a recognized urgency.
    pub fn urgency(&self) -> (r: Result<Option<Urgency>, ParseError>)
        ensures
            ({
                let pairs = match entry_header_of(self.0.model()) {
                    Some(h) => header_metadata(h),
                    None => Seq::empty(),
                };
                match lookup_urgency(pairs) {
                    None => r == Ok::<Option<Urgency>, ParseError>(None),
                    Some(v) => match urgency_of(v) {
                        Some(u) => r == Ok::<Option<Urgency>, ParseError>(Some(u)),
                        None => r is Err,
                    },
                }
            }),
    {
        match self.header() {
            Some(h) => h.urgency(),
            None => Ok(None),
        }
    }

    /// One line per body line of the entry, the empty string per blank
    /// line, in order.
    pub fn change_lines(&self) -> (r: Vec<String>)
        ensures
            strs_model(r@) == change_lines_of(children_of(self.0.model())),
    {
        collect_change_lines(&self.0)
    }
}

impl EntryHeader {
    pub fn cast(node: GreenNode) -> (r: Option<EntryHeader>)
        ensures
            match r {
                Some(v) => v.0 == node && node.model().kind() == SyntaxKind::EntryHeader,
                None => node.model().kind() != SyntaxKind::EntryHeader,
            },
    {
        if matches!(node.kind_of(), SyntaxKind::EntryHeader) {
            Some(EntryHeader(node))
        } else {
            None
        }
    }

    /// The header's own text.
    pub fn to_string(&self) -> (r: String)
        ensures
            r@ == self.0.model().text(),
    {
        self.0.text()
    }

    /// The package name: the header's first identifier.
    pub fn package(&self) -> (r: Option<String>)
        ensures
            match header_package(self.0.model()) {
                Some(t) => r matches Some(s) && s@ == t,
                None => r is None,
            },
    {
        find_token_text(&self.0, SyntaxKind::Identifier)
    }

    /// The version, parsed by the version library: present exactly when the
    /// header carries a well-parenthesized version text that the library
    /// accepts.
    pub fn version(&self) -> (r: Option<debversion::Version>)
        ensures
            r is Some <==> (header_version_text(self.0.model()) matches Some(v)
                && is_debian_version(v)),
    {
        match find_token_text(&self.0, SyntaxKind::Version) {
            Some(t) => {
                let ts = t.as_str();
                let n = ts.unicode_len();
                if n >= 2 && ts.get_char(0) == '(' && ts.get_char(n - 1) == ')' {
                    let inner = ts.substring_char(1, n - 1);
                    parse_version(inner)
                } else {
                    None
                }
            },
            None => None,
        }
    }

    /// The distribution names, if the header has a distributions node.
    pub fn distributions(&self) -> (r: Option<Vec<String>>)
        ensures
            match header_distributions(self.0.model()) {
                Some(ds) => r matches Some(v) && strs_model(v@) == ds,
                None => r is None,
            },
    {
        match find_node(&self.0, SyntaxKind::Distributions) {
            Some(d) => Some(collect_token_texts(&d, SyntaxKind::Identifier)),
            None => None,
        }
    }

    /// The complete `key=value` pairs of the header, in order.
    pub fn metadata(&self) -> (r: Vec<(String, String)>)
        ensures
            pairs_model(r@) == header_metadata(self.0.model()),
    {
        match find_node(&self.0, SyntaxKind::Metadata) {
            Some(m) => collect_metadata_pairs(&m),
            None => {
                let out: Vec<(String, String)> = Vec::new();
                proof {
                    assert(pairs_model(out@) =~= Seq::<(Seq<char>, Seq<char>)>::empty());
                }
                out
            },
        }
    }

    /// The header's urgency: absent without an `urgency` key, an error when
    /// the value is not a recognized urgency.
    #[verifier::loop_isolation(false)]
    pub fn urgency(&self) -> (r: Result<Option<Urgency>, ParseError>)
        ensures
            match lookup_urgency(header_metadata(self.0.model())) {
                None => r == Ok::<Option<Urgency>, ParseError>(None),
                Some(v) => match urgency_of(v) {
                    Some(u) => r == Ok::<Option<Urgency>, ParseError>(Some(u)),
                    None => r is Err,
                },
            },
    {
        let pairs = self.metadata();
        let ghost pm = header_metadata(self.0.model());
        let needle = "urgency".to_owned();
        let mut i: usize = 0;
        proof {
            assert(pm.skip(0) =~= pm);
        }
        while i < pairs.len()
            invariant
                i <= pairs.len(),
                lookup_urgency(pm) == lookup_urgency(pm.skip(i as int)),
                needle@ == "urgency"@,
            decreases pairs.len() - i,
        {
            proof {
                assert(pm.skip(i as int).first() == pm[i as int]);
                assert(pm[i as int] == (pairs@[i as int].0@, pairs@[i as int].1@));
                assert(pm.skip(i as int).drop_first() =~= pm.skip(i + 1));
            }
            if pairs[i].0 == needle {
                match Urgency::from_str(pairs[i].1.as_str()) {
                    Ok(u) => {
                        return Ok(Some(u));
                    },
                    Err(e) => {
                        return Err(e);
                    },
                }
            }
            i = i + 1;
        }
        proof {
            assert(pm.skip(pm.len() as int) =~= Seq::<(Seq<char>, Seq<char>)>::empty());
        }
        Ok(None)
    }
}

impl EntryBody {
    pub fn cast(node: GreenNode) -> (r: Option<EntryBody>)
        ensures
            match r {
                Some(v) => v.0 == node && node.model().kind() == SyntaxKind::EntryBody,
                None => node.model().kind() != SyntaxKind::EntryBody,
            },
    {
        if matches!(node.kind_of(), SyntaxKind::EntryBody) {
            Some(EntryBody(node))
        } else {
            None
        }
    }

    /// The change text of this body line: its detail tokens, concatenated.
    pub fn text(&self) -> (r: String)
        ensures
            r@ == body_text(self.0.model()),
    {
        concat_tokens(&self.0, SyntaxKind::Detail)
    }

    /// The body line's own text, indent and newline included.
    pub fn to_string(&self) -> (r: String)
        ensures
            r@ == self.0.model().text(),
    {
        self.0.text()
    }
}

impl EntryFooter {
    pub fn cast(node: GreenNode) -> (r: Option<EntryFooter>)
        ensures
            match r {
                Some(v) => v.0 == node && node.model().kind() == SyntaxKind::EntryFooter,
                None => node.model().kind() != SyntaxKind::EntryFooter,
            },
    {
        if matches!(node.kind_of(), SyntaxKind::EntryFooter) {
            Some(EntryFooter(node))
        } else {
            None
        }
    }

    /// The footer's own text.
    pub fn to_string(&self) -> (r: String)
        ensures
            r@ == self.0.model().text(),
    {
        self.0.text()
    }

    /// The email inside the footer, brackets stripped: present exactly when
    /// a delimited email token is there.
    pub fn email(&self) -> (r: Option<String>)
        ensures
            match footer_email_text(self.0.model()) {
                Some(t) => r matches Some(s) && s@ == t,
                None => r is None,
            },
    {
        match find_token_text(&self.0, SyntaxKind::Email) {
            Some(t) => {
                let ts = t.as_str();
                let n = ts.unicode_len();
                if n >= 2 && ts.get_char(0) == '<' && ts.get_char(n - 1) == '>' {
                    Some(ts.substring_char(1, n - 1).to_owned())
                } else {
                    None
                }
            },
            None => None,
        }
    }

    /// The maintainer name, if the footer has a maintainer node.
    pub fn maintainer(&self) -> (r: Option<String>)
        ensures
            match footer_maintainer(self.0.model()) {
                Some(t) => r matches Some(s) && s@ == t,
                None => r is None,
            },
    {
        match find_node(&self.0, SyntaxKind::Maintainer) {
            Some(n) => Some(n.text()),
            None => None,
        }
    }

    /// The timestamp text, if the footer has a timestamp node.
    pub fn timestamp(&self) -> (r: Option<String>)
        ensures
            match footer_timestamp(self.0.model()) {
                Some(t) => r matches Some(s) && s@ == t,
                None => r is None,
            },
    {
        match find_node(&self.0, SyntaxKind::Timestamp) {
            Some(n) => Some(n.text()),
            None => None,
        }
    }
}

impl Maintainer {
    pub fn cast(node: GreenNode) -> (r: Option<Maintainer>)
        ensures
            match r {
                Some(v) => v.0 == node && node.model().kind() == SyntaxKind::Maintainer,
                None => node.model().kind() != SyntaxKind::Maintainer,
            },
    {
        if matches!(node.kind_of(), SyntaxKind::Maintainer) {
            Some(Maintainer(node))
        } else {
            None
        }
    }

    /// The maintainer node's text.
    pub fn text(&self) -> (r: String)
        ensures
            r@ == self.0.model().text(),
    {
        self.0.text()
    }

    /// The maintainer node's text.
    pub fn to_string(&self) -> (r: String)
        ensures
            r@ == self.0.model().text(),
    {
        self.0.text()
    }
}

impl Timestamp {
    pub fn cast(node: GreenNode) -> (r: Option<Timestamp>)
        ensures
            match r {
                Some(v) => v.0 == node && node.model().kind() == SyntaxKind::Timestamp,
                None => node.model().kind() != SyntaxKind::Timestamp,
            },
    {
        if matches!(node.kind_of(), SyntaxKind::Timestamp) {
            Some(Timestamp(node))
        } else {
            None
        }
    }

    /// The timestamp node's text.
    pub fn text(&self) -> (r: String)
        ensures
            r@ == self.0.model().text(),
    {
        self.0.text()
    }

    /// The timestamp node's text.
    pub fn to_string(&self) -> (r: String)
        ensures
            r@ == self.0.model().text(),
    {
        self.0.text()
    }
}

impl MetadataEntry {
    pub fn cast(node: GreenNode) -> (r: Option<MetadataEntry>)
        ensures
            match r {
                Some(v) => v.0 == node && node.model().kind() == SyntaxKind::MetadataEntry,
                None => node.model().kind() != SyntaxKind::MetadataEntry,
            },
    {
        if matches!(node.kind_of(), SyntaxKind::MetadataEntry) {
            Some(MetadataEntry(node))
        } else {
            None
        }
    }

    /// The pair's key text, if a key node is there.
    pub fn key(&self) -> (r: Option<String>)
        ensures
            match node_key(self.0.model()) {
                Some(t) => r matches Some(s) && s@ == t,
                None => r is None,
            },
    {
        match find_node(&self.0, SyntaxKind::MetadataKey) {
            Some(n) => Some(n.text()),
            None => None,
        }
    }

    /// The pair's value text, if a value node is there.
    pub fn value(&self) -> (r: Option<String>)
        ensures
            match node_value(self.0.model()) {
                Some(t) => r matches Some(s) && s@ == t,
                None => r is None,
            },
    {
        match find_node(&self.0, SyntaxKind::MetadataValue) {
            Some(n) => Some(n.text()),
            None => None,
        }
    }

    /// The pair's own text.
    pub fn to_string(&self) -> (r: String)
        ensures
            r@ == self.0.model().text(),
    {
        self.0.text()
    }
}

impl MetadataKey {
    pub fn cast(node: GreenNode) -> (r: Option<MetadataKey>)
        ensures
            match r {
                Some(v) => v.0 == node && node.model().kind() == SyntaxKind::MetadataKey,
                None => node.model().kind() != SyntaxKind::MetadataKey,
            },
    {
        if matches!(node.kind_of(), SyntaxKind::MetadataKey) {
            Some(MetadataKey(node))
        } else {
            None
        }
    }

    /// The key's own text.
    pub fn to_string(&self) -> (r: String)
        ensures
            r@ == self.0.model().text(),
    {
        self.0.text()
    }
}

impl MetadataValue {
    pub fn cast(node: GreenNode) -> (r: Option<MetadataValue>)
        ensures
            match r {
                Some(v) => v.0 == node && node.model().kind() == SyntaxKind::MetadataValue,
                None => node.model().kind() != SyntaxKind::MetadataValue,
            },
    {
        if matches!(node.kind_of(), SyntaxKind::MetadataValue) {
            Some(MetadataValue(node))
        } else {
            None
        }
    }

    /// The value's own text.
    pub fn to_string(&self) -> (r: String)
        ensures
            r@ == self.0.model().text(),
    {
        self.0.text()
    }
}

} // verus!
