//! The error-tolerant parser.
//!
//! The parser turns the lexer's token stream into a syntax tree. On a
//! mismatch it wraps one token in an error branch, records a diagnostic and
//! continues, so it never aborts and never loses a token: the tree's text is
//! proved equal to the parsed input, whatever the input was, and the
//! diagnostic list is proved to carry exactly one message per error branch
//! embedded in the tree.
//!
//! The parser's course is also mirrored at the specification level (the
//! `sp_` functions): how far each piece of the grammar reaches and how many
//! diagnostics it leaves is a function of the token stream, and the
//! executable parser is proved to follow it. Through the lexer's own
//! specification, [`parse_error_total`] therefore gives the diagnostics of a
//! parse as a function of the text alone.

use vstd::prelude::*;
use vstd::string::StrSliceExecFns;
use vstd::string::StringExecFns;

use crate::lex::lex;
use crate::lex::lex_spec;
use crate::lex::token_texts;
use crate::lex::toks_model;
use crate::tree::lemma_models_of_push;
use crate::tree::lemma_texts_push;
use crate::tree::models_of;
use crate::tree::texts;
use crate::tree::wf_all;
use crate::tree::TreeModel;
use crate::tree::GreenNode;
use crate::SyntaxKind;

verus! {

/// The text of the tokens `[a, b)` of `ts`, concatenated.
pub open spec fn range_text(ts: Seq<(SyntaxKind, String)>, a: int, b: int) -> Seq<char> {
    token_texts(toks_model(ts).subrange(a, b))
}

pub proof fn lemma_token_texts_concat(x: Seq<(SyntaxKind, Seq<char>)>, y: Seq<(SyntaxKind, Seq<char>)>)
    ensures
        token_texts(x + y) == token_texts(x) + token_texts(y),
    decreases x.len(),
{
    if x.len() == 0 {
        assert(x + y =~= y);
        assert(token_texts(x) + token_texts(y) =~= token_texts(y));
    } else {
        assert((x + y).drop_first() =~= x.drop_first() + y);
        lemma_token_texts_concat(x.drop_first(), y);
        assert(token_texts(x + y) =~= token_texts(x) + token_texts(y));
    }
}

pub proof fn lemma_range_text_split(ts: Seq<(SyntaxKind, String)>, a: int, b: int, c: int)
    requires
        0 <= a <= b <= c <= ts.len(),
    ensures
        range_text(ts, a, c) == range_text(ts, a, b) + range_text(ts, b, c),
{
    let m = toks_model(ts);
    assert(m.subrange(a, c) =~= m.subrange(a, b) + m.subrange(b, c));
    lemma_token_texts_concat(m.subrange(a, b), m.subrange(b, c));
}

pub proof fn lemma_range_text_one(ts: Seq<(SyntaxKind, String)>, p: int)
    requires
        0 <= p < ts.len(),
    ensures
        range_text(ts, p, p + 1) == ts[p].1@,
{
    let m = toks_model(ts);
    let one = m.subrange(p, p + 1);
    assert(one.drop_first() =~= Seq::empty());
    assert(one.first() == (ts[p].0, ts[p].1@));
    assert(one.first().1 + token_texts(one.drop_first()) =~= ts[p].1@);
}

pub proof fn lemma_range_text_empty(ts: Seq<(SyntaxKind, String)>, a: int)
    requires
        0 <= a <= ts.len(),
    ensures
        range_text(ts, a, a) == Seq::<char>::empty(),
{
    let m = toks_model(ts);
    assert(m.subrange(a, a) =~= Seq::empty());
}

/// The number of error branches in a tree: one per recovery site. Error
/// branches hold only the offending token, so sites are never nested.
pub open spec fn error_count(m: TreeModel) -> nat
    decreases m, 1int,
{
    match m {
        TreeModel::Leaf { .. } => 0,
        TreeModel::Branch { kind, children } => (if kind == SyntaxKind::Error {
            1nat
        } else {
            0nat
        }) + error_count_all(children),
    }
}

pub open spec fn error_count_all(s: Seq<TreeModel>) -> nat
    decreases s, 0int,
{
    if s.len() == 0 {
        0
    } else {
        error_count_all(s.drop_last()) + error_count(s.last())
    }
}

pub proof fn lemma_error_count_push(s: Seq<TreeModel>, m: TreeModel)
    ensures
        error_count_all(s.push(m)) == error_count_all(s) + error_count(m),
{
    assert(s.push(m).drop_last() =~= s);
    assert(s.push(m).last() == m);
}

/// The parser's course, mirrored over the token stream: for each piece of
/// the grammar, where it ends and how many diagnostics it leaves. The
/// executable parser is proved to follow this mirror step for step, so the
/// diagnostics of a parse are a function of the text.
pub open spec fn tok_at(m: Seq<(SyntaxKind, Seq<char>)>, p: int, k: SyntaxKind) -> bool {
    0 <= p < m.len() && m[p].0 == k
}

/// Where an error recovery ends: one token consumed when one is left.
pub open spec fn sp_error(m: Seq<(SyntaxKind, Seq<char>)>, p: int) -> int {
    if 0 <= p < m.len() {
        p + 1
    } else {
        p
    }
}

/// Where an expected token ends, and whether it was missing.
pub open spec fn sp_expect(m: Seq<(SyntaxKind, Seq<char>)>, p: int, k: SyntaxKind) -> (int, nat) {
    if tok_at(m, p, k) {
        (p + 1, 0)
    } else {
        (sp_error(m, p), 1)
    }
}

/// The end of a whitespace-token run.
pub open spec fn sp_ws(m: Seq<(SyntaxKind, Seq<char>)>, p: int) -> int
    decreases m.len() - p,
{
    if tok_at(m, p, SyntaxKind::Whitespace) {
        sp_ws(m, p + 1)
    } else {
        p
    }
}

pub open spec fn at_least(p: int, lo: int) -> int {
    if p >= lo {
        p
    } else {
        lo
    }
}

/// The position a sub-parse hands back, kept inside the stream and strictly
/// past `p`: what the mirror recurses from.
pub open spec fn next_pos(m: Seq<(SyntaxKind, Seq<char>)>, p: int, nxt: int) -> int {
    let capped = if nxt > m.len() {
        m.len() as int
    } else {
        nxt
    };
    at_least(capped, p + 1)
}

pub proof fn lemma_sp_ws_ge(m: Seq<(SyntaxKind, Seq<char>)>, p: int)
    ensures
        p <= sp_ws(m, p),
    decreases m.len() - p,
{
    if tok_at(m, p, SyntaxKind::Whitespace) {
        lemma_sp_ws_ge(m, p + 1);
    }
}

/// The distributions of a header: names up to the semicolon.
pub open spec fn sp_distributions(m: Seq<(SyntaxKind, Seq<char>)>, p: int) -> (int, nat)
    decreases m.len() - p,
{
    let q = at_least(sp_ws(m, p), p);
    if tok_at(m, q, SyntaxKind::Identifier) {
        sp_distributions(m, q + 1)
    } else if tok_at(m, q, SyntaxKind::Semicolon) {
        (q, 0)
    } else {
        (sp_error(m, q), 1)
    }
}

/// One metadata pair: end, diagnostics, and whether it was complete.
pub open spec fn sp_metadata_entry(m: Seq<(SyntaxKind, Seq<char>)>, p: int) -> (int, nat, bool) {
    if tok_at(m, p, SyntaxKind::Identifier) {
        if tok_at(m, p + 1, SyntaxKind::Equals) {
            if tok_at(m, p + 2, SyntaxKind::Identifier) {
                (p + 3, 0, true)
            } else {
                (sp_error(m, p + 2), 1, false)
            }
        } else {
            (sp_error(m, p + 1), 1, false)
        }
    } else {
        (sp_error(m, p), 1, false)
    }
}

/// The metadata pairs after the semicolon, up to the end of the line.
pub open spec fn sp_metadata_items(m: Seq<(SyntaxKind, Seq<char>)>, p: int) -> (int, nat)
    decreases m.len() - p,
{
    let q = at_least(sp_ws(m, p), p);
    if tok_at(m, q, SyntaxKind::Newline) {
        (q, 0)
    } else if q >= m.len() {
        (q, 0)
    } else {
        let e = sp_metadata_entry(m, q);
        if e.2 {
            let r = sp_metadata_items(m, at_least(e.0, q + 1));
            (r.0, e.1 + r.1)
        } else {
            (e.0, e.1)
        }
    }
}

/// The whole metadata of a header.
pub open spec fn sp_metadata(m: Seq<(SyntaxKind, Seq<char>)>, p: int) -> (int, nat) {
    if tok_at(m, p, SyntaxKind::Semicolon) {
        let r = sp_metadata_items(m, p + 1);
        (r.0, r.1)
    } else if tok_at(m, p, SyntaxKind::Newline) {
        (p, 0)
    } else {
        (sp_error(m, p), 1)
    }
}

/// A header line.
pub open spec fn sp_header(m: Seq<(SyntaxKind, Seq<char>)>, p: int) -> (int, nat) {
    let a = sp_expect(m, p, SyntaxKind::Identifier);
    let q = sp_ws(m, a.0);
    let b = sp_expect(m, q, SyntaxKind::Version);
    let c = sp_distributions(m, b.0);
    let d = sp_metadata(m, c.0);
    let e = sp_expect(m, d.0, SyntaxKind::Newline);
    (e.0, a.1 + b.1 + c.1 + d.1 + e.1)
}

/// A body line, entered at its indent token.
pub open spec fn sp_body(m: Seq<(SyntaxKind, Seq<char>)>, p: int) -> (int, nat) {
    let p1 = p + 1;
    let a: (int, nat) = if tok_at(m, p1, SyntaxKind::Detail) {
        (p1 + 1, 0)
    } else if tok_at(m, p1, SyntaxKind::Newline) {
        (p1, 0)
    } else {
        (sp_error(m, p1), 1)
    };
    let b = sp_expect(m, a.0, SyntaxKind::Newline);
    (b.0, a.1 + b.1)
}

/// The end of the maintainer name: text, and whitespace not directly in
/// front of the email.
pub open spec fn sp_maintainer(m: Seq<(SyntaxKind, Seq<char>)>, p: int) -> int
    decreases m.len() - p,
{
    if tok_at(m, p, SyntaxKind::Text) || (tok_at(m, p, SyntaxKind::Whitespace) && !tok_at(
        m,
        p + 1,
        SyntaxKind::Email,
    )) {
        sp_maintainer(m, p + 1)
    } else {
        p
    }
}

/// The end of the timestamp: text and whitespace to the end of the line.
pub open spec fn sp_timestamp_end(m: Seq<(SyntaxKind, Seq<char>)>, p: int) -> int
    decreases m.len() - p,
{
    if tok_at(m, p, SyntaxKind::Text) || tok_at(m, p, SyntaxKind::Whitespace) {
        sp_timestamp_end(m, p + 1)
    } else {
        p
    }
}

/// A footer line, entered at its indent token.
pub open spec fn sp_footer(m: Seq<(SyntaxKind, Seq<char>)>, p: int) -> (int, nat) {
    let p1 = p + 1;
    let a = sp_expect(m, p1, SyntaxKind::Dashes);
    let q = sp_ws(m, a.0);
    let mnt = sp_maintainer(m, q);
    let b = sp_expect(m, mnt, SyntaxKind::Whitespace);
    let c = sp_expect(m, b.0, SyntaxKind::Email);
    let d = sp_expect(m, c.0, SyntaxKind::Whitespace);
    let ts = sp_timestamp_end(m, d.0);
    let e = sp_expect(m, ts, SyntaxKind::Newline);
    (e.0, a.1 + b.1 + c.1 + d.1 + e.1)
}

/// An entry's lines after the header: blank lines and body lines until a
/// footer ends the entry, something else leaves it, or the input runs out.
pub open spec fn sp_entry_items(m: Seq<(SyntaxKind, Seq<char>)>, p: int) -> (int, nat)
    decreases m.len() - p,
{
    if p < 0 || p >= m.len() {
        (p, 1)
    } else if m[p].0 == SyntaxKind::Newline {
        sp_entry_items(m, p + 1)
    } else if m[p].0 == SyntaxKind::Indent {
        if m[p].1.len() >= 2 {
            let b = sp_body(m, p);
            let r = sp_entry_items(m, at_least(b.0, p + 1));
            (r.0, b.1 + r.1)
        } else {
            sp_footer(m, p)
        }
    } else {
        (p, 0)
    }
}

/// A whole entry.
pub open spec fn sp_entry(m: Seq<(SyntaxKind, Seq<char>)>, p: int) -> (int, nat) {
    let h = sp_header(m, p);
    let r = sp_entry_items(m, at_least(h.0, p));
    (r.0, h.1 + r.1)
}

/// The whole changelog.
pub open spec fn sp_root(m: Seq<(SyntaxKind, Seq<char>)>, p: int) -> (int, nat)
    decreases m.len() - p,
{
    if p < 0 || p >= m.len() {
        (p, 0)
    } else if m[p].0 == SyntaxKind::Newline {
        sp_root(m, p + 1)
    } else if m[p].0 == SyntaxKind::Comment {
        sp_root(m, p + 1)
    } else if m[p].0 == SyntaxKind::Identifier {
        let e = sp_entry(m, p);
        let r = sp_root(m, next_pos(m, p, e.0));
        (r.0, e.1 + r.1)
    } else {
        let r = sp_root(m, p + 1);
        (r.0, 1 + r.1)
    }
}

/// How many diagnostics parsing a text leaves: the mirror run over the
/// text's token stream.
pub open spec fn parse_error_total(s: Seq<char>) -> nat {
    sp_root(lex_spec(s), 0).1
}

/// A parse result: the tree, which covers the whole input, and the
/// diagnostics collected along the way.
pub struct Parse {
    pub green_node: GreenNode,
    pub errors: Vec<String>,
}

struct Parser {
    toks: Vec<(SyntaxKind, String)>,
    pos: usize,
    errors: Vec<String>,
}

impl Parser {
    spec fn wf(self) -> bool {
        &&& self.pos <= self.toks@.len()
        &&& forall|j: int|
            0 <= j < self.toks@.len() ==> crate::is_leaf_kind(#[trigger] self.toks@[j].0)
                && self.toks@[j].1@.len() > 0
    }

    spec fn cur(self) -> Option<SyntaxKind> {
        if self.pos < self.toks@.len() {
            Some(self.toks@[self.pos as int].0)
        } else {
            None
        }
    }
}

/// What every token-consuming step guarantees: the tokens are untouched, the
/// position only advances, and the returned node is well formed and covers
/// exactly the consumed tokens.
spec fn step_ok(pre: Parser, post: Parser, n: GreenNode) -> bool {
    &&& post.toks == pre.toks
    &&& post.wf()
    &&& pre.pos <= post.pos
    &&& n.model().wf()
    &&& n.model().text() == range_text(pre.toks@, pre.pos as int, post.pos as int)
    &&& post.errors@.len() == pre.errors@.len() + error_count(n.model())
}

/// What may stand directly under the root: an entry, a blank line or an
/// error branch, or a bare comment token.
pub open spec fn root_child_ok(m: TreeModel) -> bool {
    match m {
        TreeModel::Branch { kind, .. } => kind == SyntaxKind::Entry || kind == SyntaxKind::EmptyLine
            || kind == SyntaxKind::Error,
        TreeModel::Leaf { kind, .. } => kind == SyntaxKind::Comment,
    }
}

/// The shape of a parse tree: a root branch whose children are entries,
/// blank lines, comments and error nodes, and every entry branch opens with
/// its header.
pub open spec fn root_shape(m: TreeModel) -> bool {
    &&& m is Branch
    &&& m.kind() == SyntaxKind::Root
    &&& forall|j: int|
        0 <= j < crate::view::children_of(m).len() ==> root_child_ok(
            #[trigger] crate::view::children_of(m)[j],
        )
    &&& forall|j: int|
        0 <= j < crate::view::children_of(m).len() ==> (#[trigger] crate::view::children_of(m)[j])
            is Branch && crate::view::children_of(m)[j].kind() == SyntaxKind::Entry
            ==> entry_shape(crate::view::children_of(m)[j])
}

proof fn lemma_root_children_extend(before: Seq<TreeModel>, m: TreeModel)
    requires
        forall|j: int| 0 <= j < before.len() ==> root_child_ok(#[trigger] before[j]),
        forall|j: int|
            0 <= j < before.len() ==> (#[trigger] before[j]) is Branch && before[j].kind()
                == SyntaxKind::Entry ==> entry_shape(before[j]),
        root_child_ok(m),
        m is Branch && m.kind() == SyntaxKind::Entry ==> entry_shape(m),
    ensures
        forall|j: int| 0 <= j < before.push(m).len() ==> root_child_ok(#[trigger] before.push(m)[j]),
        forall|j: int|
            0 <= j < before.push(m).len() ==> (#[trigger] before.push(m)[j]) is Branch
                && before.push(m)[j].kind() == SyntaxKind::Entry ==> entry_shape(before.push(m)[j]),
{
    assert forall|j: int| 0 <= j < before.push(m).len() implies root_child_ok(
        #[trigger] before.push(m)[j],
    ) && (before.push(m)[j] is Branch && before.push(m)[j].kind() == SyntaxKind::Entry
        ==> entry_shape(before.push(m)[j])) by {
        if j < before.len() {
            assert(before.push(m)[j] == before[j]);
        } else {
            assert(before.push(m)[j] == m);
        }
    }
}

/// An entry branch carries its header as its first child.
pub open spec fn entry_shape(m: TreeModel) -> bool {
    &&& crate::view::children_of(m).len() > 0
    &&& crate::view::children_of(m)[0] is Branch
    &&& crate::view::children_of(m)[0].kind() == SyntaxKind::EntryHeader
}

impl Parser {
    fn at(&self, k: SyntaxKind) -> (b: bool)
        ensures
            b == (self.cur() == Some(k)),
    {
        if self.pos < self.toks.len() {
            self.toks[self.pos].0 == k
        } else {
            false
        }
    }

    fn peek_next(&self) -> (r: Option<SyntaxKind>)
        requires
            self.wf(),
        ensures
            r == (if self.pos + 1 < self.toks@.len() {
                Some(self.toks@[self.pos + 1].0)
            } else {
                None::<SyntaxKind>
            }),
    {
        if self.pos < self.toks.len() {
            if self.pos + 1 < self.toks.len() {
                Some(self.toks[self.pos + 1].0)
            } else {
                None
            }
        } else {
            None
        }
    }

    /// Take the current token as a leaf.
    fn bump(&mut self) -> (n: GreenNode)
        requires
            old(self).wf(),
            old(self).pos < old(self).toks@.len(),
        ensures
            step_ok(*old(self), *final(self), n),
            final(self).pos == old(self).pos + 1,
            final(self).errors == old(self).errors,
            n.model() matches crate::tree::TreeModel::Leaf { kind, text } && kind == old(
                self,
            ).toks@[old(self).pos as int].0 && text == old(self).toks@[old(self).pos as int].1@,
    {
        let k = self.toks[self.pos].0;
        let t = self.toks[self.pos].1.clone();
        if self.pos < self.toks.len() {
            self.pos = self.pos + 1;
        }
        proof {
            lemma_range_text_one(self.toks@, self.pos as int - 1);
        }
        GreenNode::Leaf { kind: k, text: t }
    }

    /// Record a diagnostic and wrap one token (if any is left) in an error
    /// branch, then carry on.
    fn error(&mut self, msg: &str) -> (n: GreenNode)
        requires
            old(self).wf(),
        ensures
            step_ok(*old(self), *final(self), n),
            n.model() is Branch,
            n.model().kind() == SyntaxKind::Error,
            final(self).pos as int == sp_error(toks_model(old(self).toks@), old(self).pos as int),
            old(self).pos < old(self).toks@.len() ==> final(self).pos == old(self).pos + 1,
            old(self).pos >= old(self).toks@.len() ==> final(self).pos == old(self).pos,
            final(self).errors@.len() == old(self).errors@.len() + 1,
    {
        self.errors.push(msg.to_owned());
        let mut ch: Vec<GreenNode> = Vec::new();
        if self.pos < self.toks.len() {
            let leaf = self.bump();
            proof {
                lemma_models_of_push(ch@, leaf);
                lemma_texts_push(models_of(ch@), leaf.model());
                lemma_error_count_push(models_of(ch@), leaf.model());
            }
            ch.push(leaf);
            proof {
                lemma_range_text_empty(self.toks@, old(self).pos as int);
                assert(error_count_all(models_of(ch@)) == 0);
            }
        } else {
            proof {
                lemma_range_text_empty(self.toks@, old(self).pos as int);
                assert(error_count_all(models_of(ch@)) == 0);
            }
        }
        GreenNode::Branch { kind: SyntaxKind::Error, children: ch }
    }

    /// Append a node that covers `[mid, self.pos)` to children known to
    /// cover `[p0, mid)`.
    fn push_child(
        &self,
        children: &mut Vec<GreenNode>,
        n: GreenNode,
        Ghost(p0): Ghost<int>,
        Ghost(mid): Ghost<int>,
    )
        requires
            self.wf(),
            0 <= p0 <= mid <= self.pos as int,
            texts(models_of(old(children)@)) == range_text(self.toks@, p0, mid),
            wf_all(models_of(old(children)@)),
            n.model().wf(),
            n.model().text() == range_text(self.toks@, mid, self.pos as int),
        ensures
            final(children)@ == old(children)@.push(n),
            texts(models_of(final(children)@)) == range_text(self.toks@, p0, self.pos as int),
            wf_all(models_of(final(children)@)),
            error_count_all(models_of(final(children)@)) == error_count_all(
                models_of(old(children)@),
            ) + error_count(n.model()),
    {
        proof {
            lemma_models_of_push(children@, n);
            lemma_texts_push(models_of(children@), n.model());
            lemma_error_count_push(models_of(children@), n.model());
            lemma_range_text_split(self.toks@, p0, mid, self.pos as int);
        }
        children.push(n);
    }

    /// Take the current token if it has the expected kind; otherwise report.
    fn expect(&mut self, k: SyntaxKind, msg: &str) -> (n: GreenNode)
        requires
            old(self).wf(),
        ensures
            step_ok(*old(self), *final(self), n),
            old(self).pos < old(self).toks@.len() ==> final(self).pos > old(self).pos,
            final(self).pos <= old(self).pos + 1,
            final(self).pos as int == sp_expect(
                toks_model(old(self).toks@),
                old(self).pos as int,
                k,
            ).0,
            final(self).errors@.len() == old(self).errors@.len() + sp_expect(
                toks_model(old(self).toks@),
                old(self).pos as int,
                k,
            ).1,
    {
        let ghost m = toks_model(self.toks@);
        proof {
            assert(m.len() == self.toks@.len());
            if self.pos < self.toks.len() {
                assert(m[self.pos as int] == (
                    self.toks@[self.pos as int].0,
                    self.toks@[self.pos as int].1@,
                ));
            }
        }
        if self.at(k) {
            self.bump()
        } else {
            self.error(msg)
        }
    }

    /// Move whitespace tokens into `children`.
    #[verifier::loop_isolation(false)]
    fn skip_ws(&mut self, children: &mut Vec<GreenNode>, Ghost(p0): Ghost<int>)
        requires
            old(self).wf(),
            0 <= p0 <= old(self).pos as int,
            texts(models_of(old(children)@)) == range_text(
                old(self).toks@,
                p0,
                old(self).pos as int,
            ),
            wf_all(models_of(old(children)@)),
        ensures
            final(self).toks == old(self).toks,
            final(self).wf(),
            final(self).pos >= old(self).pos,
            final(self).errors == old(self).errors,
            texts(models_of(final(children)@)) == range_text(
                final(self).toks@,
                p0,
                final(self).pos as int,
            ),
            wf_all(models_of(final(children)@)),
            error_count_all(models_of(final(children)@)) == error_count_all(
                models_of(old(children)@),
            ),
            final(self).pos as int == sp_ws(toks_model(old(self).toks@), old(self).pos as int),
    {
        let ghost m = toks_model(self.toks@);
        while self.at(SyntaxKind::Whitespace)
            invariant
                self.wf(),
                self.toks == old(self).toks,
                self.errors == old(self).errors,
                old(self).pos <= self.pos,
                texts(models_of(children@)) == range_text(self.toks@, p0, self.pos as int),
                wf_all(models_of(children@)),
                error_count_all(models_of(children@)) == error_count_all(
                    models_of(old(children)@),
                ),
                sp_ws(m, old(self).pos as int) == sp_ws(m, self.pos as int),
            decreases self.toks@.len() - self.pos as int,
        {
            proof {
                assert(m[self.pos as int] == (
                    self.toks@[self.pos as int].0,
                    self.toks@[self.pos as int].1@,
                ));
            }
            let ghost mid = self.pos as int;
            let leaf = self.bump();
            self.push_child(children, leaf, Ghost(p0), Ghost(mid));
        }
        proof {
            assert(m.len() == self.toks@.len());
            if self.pos < self.toks.len() {
                assert(m[self.pos as int] == (
                    self.toks@[self.pos as int].0,
                    self.toks@[self.pos as int].1@,
                ));
            }
            assert(!tok_at(m, self.pos as int, SyntaxKind::Whitespace));
        }
    }

    /// A blank line: a single newline token in a node of its own.
    fn parse_empty_line(&mut self) -> (n: GreenNode)
        requires
            old(self).wf(),
            old(self).cur() == Some(SyntaxKind::Newline),
        ensures
            step_ok(*old(self), *final(self), n),
            final(self).pos == old(self).pos + 1,
            final(self).errors == old(self).errors,
            n.model() is Branch,
            n.model().kind() == SyntaxKind::EmptyLine,
    {
        let mut ch: Vec<GreenNode> = Vec::new();
        let leaf = self.bump();
        proof {
            lemma_models_of_push(ch@, leaf);
            lemma_texts_push(models_of(ch@), leaf.model());
            lemma_error_count_push(models_of(ch@), leaf.model());
        }
        ch.push(leaf);
        GreenNode::Branch { kind: SyntaxKind::EmptyLine, children: ch }
    }

    /// The distribution names of a header, up to the semicolon.
    #[verifier::loop_isolation(false)]
    fn parse_distributions(&mut self) -> (n: GreenNode)
        requires
            old(self).wf(),
        ensures
            step_ok(*old(self), *final(self), n),
            n.model().kind() == SyntaxKind::Distributions,
            final(self).pos as int == sp_distributions(
                toks_model(old(self).toks@),
                old(self).pos as int,
            ).0,
            final(self).errors@.len() == old(self).errors@.len() + sp_distributions(
                toks_model(old(self).toks@),
                old(self).pos as int,
            ).1,
    {
        let ghost p0 = self.pos as int;
        let ghost m = toks_model(self.toks@);
        let ghost err0 = old(self).errors@.len() as int;
        let mut ch: Vec<GreenNode> = Vec::new();
        proof {
            lemma_range_text_empty(self.toks@, p0);
            assert(m.len() == self.toks@.len());
        }
        let mut done = false;
        while !done
            invariant
                self.wf(),
                self.toks == old(self).toks,
                p0 <= self.pos as int,
                texts(models_of(ch@)) == range_text(self.toks@, p0, self.pos as int),
                wf_all(models_of(ch@)),
                self.errors@.len() == old(self).errors@.len() + error_count_all(models_of(ch@)),
                !done ==> sp_distributions(m, p0).0 == sp_distributions(m, self.pos as int).0,
                !done ==> sp_distributions(m, p0).1 + err0 == self.errors@.len()
                    + sp_distributions(m, self.pos as int).1,
                done ==> self.pos as int == sp_distributions(m, p0).0,
                done ==> self.errors@.len() == err0 + sp_distributions(m, p0).1,
            decreases self.toks@.len() - self.pos as int, (if done {
                0int
            } else {
                1int
            }),
        {
            let ghost ph = self.pos as int;
            self.skip_ws(&mut ch, Ghost(p0));
            proof {
                lemma_sp_ws_ge(m, ph);
                assert(at_least(sp_ws(m, ph), ph) == sp_ws(m, ph));
                if self.pos < self.toks.len() {
                    assert(m[self.pos as int] == (
                        self.toks@[self.pos as int].0,
                        self.toks@[self.pos as int].1@,
                    ));
                }
            }
            if self.at(SyntaxKind::Identifier) {
                let ghost mid = self.pos as int;
                let leaf = self.bump();
                self.push_child(&mut ch, leaf, Ghost(p0), Ghost(mid));
            } else if self.at(SyntaxKind::Semicolon) {
                done = true;
            } else {
                let ghost mid = self.pos as int;
                let err = self.error("expected distribution or semicolon");
                self.push_child(&mut ch, err, Ghost(p0), Ghost(mid));
                done = true;
            }
        }
        GreenNode::Branch { kind: SyntaxKind::Distributions, children: ch }
    }

    /// One `key=value` pair. The flag reports whether the pair was complete;
    /// on an incomplete pair the caller stops reading metadata.
    fn parse_metadata_entry(&mut self) -> (r: (GreenNode, bool))
        requires
            old(self).wf(),
        ensures
            step_ok(*old(self), *final(self), r.0),
            r.0.model().kind() == SyntaxKind::MetadataEntry,
            r.1 ==> final(self).pos > old(self).pos,
            ({
                let e = sp_metadata_entry(toks_model(old(self).toks@), old(self).pos as int);
                final(self).pos as int == e.0 && final(self).errors@.len() == old(
                    self,
                ).errors@.len() + e.1 && r.1 == e.2
            }),
    {
        let ghost p0 = self.pos as int;
        let ghost m = toks_model(self.toks@);
        let mut ch: Vec<GreenNode> = Vec::new();
        proof {
            lemma_range_text_empty(self.toks@, p0);
            assert(m.len() == self.toks@.len());
            if p0 < m.len() {
                assert(m[p0] == (self.toks@[p0].0, self.toks@[p0].1@));
            }
            if p0 + 1 < m.len() {
                assert(m[p0 + 1] == (self.toks@[p0 + 1].0, self.toks@[p0 + 1].1@));
            }
            if p0 + 2 < m.len() {
                assert(m[p0 + 2] == (self.toks@[p0 + 2].0, self.toks@[p0 + 2].1@));
            }
        }
        let mut complete = false;
        if self.at(SyntaxKind::Identifier) {
            let ghost mid = self.pos as int;
            let leaf = self.bump();
            let mut key_ch: Vec<GreenNode> = Vec::new();
            proof {
                lemma_models_of_push(key_ch@, leaf);
                lemma_texts_push(models_of(key_ch@), leaf.model());
                lemma_error_count_push(models_of(key_ch@), leaf.model());
            }
            key_ch.push(leaf);
            let key = GreenNode::Branch { kind: SyntaxKind::MetadataKey, children: key_ch };
            self.push_child(&mut ch, key, Ghost(p0), Ghost(mid));
            if self.at(SyntaxKind::Equals) {
                let ghost mid2 = self.pos as int;
                let eq = self.bump();
                self.push_child(&mut ch, eq, Ghost(p0), Ghost(mid2));
                if self.at(SyntaxKind::Identifier) {
                    let ghost mid3 = self.pos as int;
                    let vleaf = self.bump();
                    let mut val_ch: Vec<GreenNode> = Vec::new();
                    proof {
                        lemma_models_of_push(val_ch@, vleaf);
                        lemma_texts_push(models_of(val_ch@), vleaf.model());
                        lemma_error_count_push(models_of(val_ch@), vleaf.model());
                    }
                    val_ch.push(vleaf);
                    let val = GreenNode::Branch {
                        kind: SyntaxKind::MetadataValue,
                        children: val_ch,
                    };
                    self.push_child(&mut ch, val, Ghost(p0), Ghost(mid3));
                    complete = true;
                } else {
                    let ghost mid3 = self.pos as int;
                    let err = self.error("expected metadata value");
                    self.push_child(&mut ch, err, Ghost(p0), Ghost(mid3));
                }
            } else {
                let ghost mid2 = self.pos as int;
                let err = self.error("expected equals");
                self.push_child(&mut ch, err, Ghost(p0), Ghost(mid2));
            }
        } else {
            let ghost mid = self.pos as int;
            let err = self.error("expected metadata key");
            self.push_child(&mut ch, err, Ghost(p0), Ghost(mid));
        }
        (GreenNode::Branch { kind: SyntaxKind::MetadataEntry, children: ch }, complete)
    }

    /// The metadata of a header: a semicolon and its `key=value` pairs, up
    /// to the end of the line.
    #[verifier::loop_isolation(false)]
    fn parse_metadata(&mut self) -> (n: GreenNode)
        requires
            old(self).wf(),
        ensures
            step_ok(*old(self), *final(self), n),
            n.model().kind() == SyntaxKind::Metadata,
            final(self).pos as int == sp_metadata(
                toks_model(old(self).toks@),
                old(self).pos as int,
            ).0,
            final(self).errors@.len() == old(self).errors@.len() + sp_metadata(
                toks_model(old(self).toks@),
                old(self).pos as int,
            ).1,
    {
        let ghost p0 = self.pos as int;
        let ghost m = toks_model(self.toks@);
        let ghost err0 = old(self).errors@.len() as int;
        let mut ch: Vec<GreenNode> = Vec::new();
        proof {
            lemma_range_text_empty(self.toks@, p0);
            assert(m.len() == self.toks@.len());
            if p0 < m.len() {
                assert(m[p0] == (self.toks@[p0].0, self.toks@[p0].1@));
            }
        }
        if self.at(SyntaxKind::Semicolon) {
            let ghost mid = self.pos as int;
            let semi = self.bump();
            self.push_child(&mut ch, semi, Ghost(p0), Ghost(mid));
            let ghost items0 = self.pos as int;
            let mut done = false;
            while !done
                invariant
                    self.wf(),
                    self.toks == old(self).toks,
                    p0 <= self.pos as int,
                    texts(models_of(ch@)) == range_text(self.toks@, p0, self.pos as int),
                    wf_all(models_of(ch@)),
                    self.errors@.len() == old(self).errors@.len() + error_count_all(
                        models_of(ch@),
                    ),
                    !done ==> sp_metadata_items(m, items0).0 == sp_metadata_items(
                        m,
                        self.pos as int,
                    ).0,
                    !done ==> sp_metadata_items(m, items0).1 + err0 == self.errors@.len()
                        + sp_metadata_items(m, self.pos as int).1,
                    done ==> self.pos as int == sp_metadata_items(m, items0).0,
                    done ==> self.errors@.len() == err0 + sp_metadata_items(m, items0).1,
                decreases self.toks@.len() - self.pos as int, (if done {
                    0int
                } else {
                    1int
                }),
            {
                let ghost ph = self.pos as int;
                self.skip_ws(&mut ch, Ghost(p0));
                proof {
                    lemma_sp_ws_ge(m, ph);
                    assert(at_least(sp_ws(m, ph), ph) == sp_ws(m, ph));
                    if self.pos < self.toks.len() {
                        assert(m[self.pos as int] == (
                            self.toks@[self.pos as int].0,
                            self.toks@[self.pos as int].1@,
                        ));
                    }
                }
                if self.at(SyntaxKind::Newline) {
                    done = true;
                } else if self.pos >= self.toks.len() {
                    done = true;
                } else {
                    let ghost mid2 = self.pos as int;
                    let (entry, complete) = self.parse_metadata_entry();
                    self.push_child(&mut ch, entry, Ghost(p0), Ghost(mid2));
                    if !complete {
                        done = true;
                    } else {
                        proof {
                            assert(at_least(sp_metadata_entry(m, mid2).0, mid2 + 1)
                                == sp_metadata_entry(m, mid2).0);
                        }
                    }
                }
            }
        } else if self.at(SyntaxKind::Newline) {
            // An entirely absent metadata list is fine.
        } else {
            let ghost mid = self.pos as int;
            let err = self.error("expected semicolon or newline");
            self.push_child(&mut ch, err, Ghost(p0), Ghost(mid));
        }
        GreenNode::Branch { kind: SyntaxKind::Metadata, children: ch }
    }

    /// A header line: package, version, distributions, metadata, newline.
    fn parse_entry_header(&mut self) -> (n: GreenNode)
        requires
            old(self).wf(),
        ensures
            step_ok(*old(self), *final(self), n),
            n.model() is Branch,
            n.model().kind() == SyntaxKind::EntryHeader,
            old(self).pos < old(self).toks@.len() ==> final(self).pos > old(self).pos,
            final(self).pos as int == sp_header(
                toks_model(old(self).toks@),
                old(self).pos as int,
            ).0,
            final(self).errors@.len() == old(self).errors@.len() + sp_header(
                toks_model(old(self).toks@),
                old(self).pos as int,
            ).1,
    {
        let ghost p0 = self.pos as int;
        let mut ch: Vec<GreenNode> = Vec::new();
        proof {
            lemma_range_text_empty(self.toks@, p0);
        }
        let ghost mid = self.pos as int;
        let name = self.expect(SyntaxKind::Identifier, "expected package name");
        self.push_child(&mut ch, name, Ghost(p0), Ghost(mid));
        self.skip_ws(&mut ch, Ghost(p0));
        let ghost mid2 = self.pos as int;
        let version = self.expect(SyntaxKind::Version, "expected version");
        self.push_child(&mut ch, version, Ghost(p0), Ghost(mid2));
        let ghost mid3 = self.pos as int;
        let dists = self.parse_distributions();
        self.push_child(&mut ch, dists, Ghost(p0), Ghost(mid3));
        let ghost mid4 = self.pos as int;
        let meta = self.parse_metadata();
        self.push_child(&mut ch, meta, Ghost(p0), Ghost(mid4));
        let ghost mid5 = self.pos as int;
        let nl = self.expect(SyntaxKind::Newline, "expected newline");
        self.push_child(&mut ch, nl, Ghost(p0), Ghost(mid5));
        GreenNode::Branch { kind: SyntaxKind::EntryHeader, children: ch }
    }

    /// A body line: the two-space indent, the detail text, the newline.
    fn parse_entry_body(&mut self) -> (n: GreenNode)
        requires
            old(self).wf(),
            old(self).cur() == Some(SyntaxKind::Indent),
        ensures
            step_ok(*old(self), *final(self), n),
            n.model().kind() == SyntaxKind::EntryBody,
            final(self).pos > old(self).pos,
            final(self).pos as int == sp_body(toks_model(old(self).toks@), old(self).pos as int).0,
            final(self).errors@.len() == old(self).errors@.len() + sp_body(
                toks_model(old(self).toks@),
                old(self).pos as int,
            ).1,
    {
        let ghost p0 = self.pos as int;
        let ghost m = toks_model(self.toks@);
        let mut ch: Vec<GreenNode> = Vec::new();
        proof {
            lemma_range_text_empty(self.toks@, p0);
            assert(m.len() == self.toks@.len());
            if p0 + 1 < m.len() {
                assert(m[p0 + 1] == (self.toks@[p0 + 1].0, self.toks@[p0 + 1].1@));
            }
        }
        let ghost mid = self.pos as int;
        let indent = self.bump();
        self.push_child(&mut ch, indent, Ghost(p0), Ghost(mid));
        if self.at(SyntaxKind::Detail) {
            let ghost mid2 = self.pos as int;
            let detail = self.bump();
            self.push_child(&mut ch, detail, Ghost(p0), Ghost(mid2));
        } else if self.at(SyntaxKind::Newline) {
            // A body line may be just the indent.
        } else {
            let ghost mid2 = self.pos as int;
            let err = self.error("expected detail");
            self.push_child(&mut ch, err, Ghost(p0), Ghost(mid2));
        }
        let ghost mid3 = self.pos as int;
        let nl = self.expect(SyntaxKind::Newline, "expected newline");
        self.push_child(&mut ch, nl, Ghost(p0), Ghost(mid3));
        GreenNode::Branch { kind: SyntaxKind::EntryBody, children: ch }
    }

    /// The maintainer name: text, and any whitespace not directly in front
    /// of the email.
    #[verifier::loop_isolation(false)]
    fn parse_maintainer(&mut self) -> (n: GreenNode)
        requires
            old(self).wf(),
        ensures
            step_ok(*old(self), *final(self), n),
            n.model().kind() == SyntaxKind::Maintainer,
            final(self).pos as int == sp_maintainer(
                toks_model(old(self).toks@),
                old(self).pos as int,
            ),
            final(self).errors == old(self).errors,
    {
        let ghost p0 = self.pos as int;
        let ghost m = toks_model(self.toks@);
        let mut ch: Vec<GreenNode> = Vec::new();
        proof {
            lemma_range_text_empty(self.toks@, p0);
        }
        while self.at(SyntaxKind::Text) || (self.at(SyntaxKind::Whitespace) && !matches!(
            self.peek_next(),
            Some(SyntaxKind::Email),
        ))
            invariant
                self.wf(),
                self.toks == old(self).toks,
                self.errors == old(self).errors,
                p0 <= self.pos as int,
                texts(models_of(ch@)) == range_text(self.toks@, p0, self.pos as int),
                wf_all(models_of(ch@)),
                error_count_all(models_of(ch@)) == 0,
                sp_maintainer(m, p0) == sp_maintainer(m, self.pos as int),
            decreases self.toks@.len() - self.pos as int,
        {
            proof {
                assert(m[self.pos as int] == (
                    self.toks@[self.pos as int].0,
                    self.toks@[self.pos as int].1@,
                ));
                if self.pos + 1 < self.toks@.len() {
                    assert(m[self.pos + 1] == (
                        self.toks@[self.pos + 1].0,
                        self.toks@[self.pos + 1].1@,
                    ));
                }
            }
            let ghost mid = self.pos as int;
            let leaf = self.bump();
            self.push_child(&mut ch, leaf, Ghost(p0), Ghost(mid));
        }
        proof {
            assert(m.len() == self.toks@.len());
            if self.pos < self.toks.len() {
                assert(m[self.pos as int] == (
                    self.toks@[self.pos as int].0,
                    self.toks@[self.pos as int].1@,
                ));
                if self.pos + 1 < self.toks@.len() {
                    assert(m[self.pos + 1] == (
                        self.toks@[self.pos + 1].0,
                        self.toks@[self.pos + 1].1@,
                    ));
                }
            }
            assert(sp_maintainer(m, self.pos as int) == self.pos as int);
        }
        GreenNode::Branch { kind: SyntaxKind::Maintainer, children: ch }
    }

    /// The timestamp: all text and whitespace up to the end of the line.
    #[verifier::loop_isolation(false)]
    fn parse_timestamp(&mut self) -> (n: GreenNode)
        requires
            old(self).wf(),
        ensures
            step_ok(*old(self), *final(self), n),
            n.model().kind() == SyntaxKind::Timestamp,
            final(self).pos as int == sp_timestamp_end(
                toks_model(old(self).toks@),
                old(self).pos as int,
            ),
            final(self).errors == old(self).errors,
    {
        let ghost p0 = self.pos as int;
        let ghost m = toks_model(self.toks@);
        let mut ch: Vec<GreenNode> = Vec::new();
        proof {
            lemma_range_text_empty(self.toks@, p0);
        }
        while self.at(SyntaxKind::Text) || self.at(SyntaxKind::Whitespace)
            invariant
                self.wf(),
                self.toks == old(self).toks,
                self.errors == old(self).errors,
                p0 <= self.pos as int,
                texts(models_of(ch@)) == range_text(self.toks@, p0, self.pos as int),
                wf_all(models_of(ch@)),
                error_count_all(models_of(ch@)) == 0,
                sp_timestamp_end(m, p0) == sp_timestamp_end(m, self.pos as int),
            decreases self.toks@.len() - self.pos as int,
        {
            proof {
                assert(m[self.pos as int] == (
                    self.toks@[self.pos as int].0,
                    self.toks@[self.pos as int].1@,
                ));
            }
            let ghost mid = self.pos as int;
            let leaf = self.bump();
            self.push_child(&mut ch, leaf, Ghost(p0), Ghost(mid));
        }
        proof {
            assert(m.len() == self.toks@.len());
            if self.pos < self.toks.len() {
                assert(m[self.pos as int] == (
                    self.toks@[self.pos as int].0,
                    self.toks@[self.pos as int].1@,
                ));
            }
            assert(sp_timestamp_end(m, self.pos as int) == self.pos as int);
        }
        GreenNode::Branch { kind: SyntaxKind::Timestamp, children: ch }
    }

    /// A footer line: ` -- Maintainer <email>  timestamp`.
    fn parse_entry_footer(&mut self) -> (n: GreenNode)
        requires
            old(self).wf(),
            old(self).cur() == Some(SyntaxKind::Indent),
        ensures
            step_ok(*old(self), *final(self), n),
            n.model().kind() == SyntaxKind::EntryFooter,
            final(self).pos > old(self).pos,
            final(self).pos as int == sp_footer(
                toks_model(old(self).toks@),
                old(self).pos as int,
            ).0,
            final(self).errors@.len() == old(self).errors@.len() + sp_footer(
                toks_model(old(self).toks@),
                old(self).pos as int,
            ).1,
    {
        let ghost p0 = self.pos as int;
        let mut ch: Vec<GreenNode> = Vec::new();
        proof {
            lemma_range_text_empty(self.toks@, p0);
        }
        let ghost mid = self.pos as int;
        let indent = self.bump();
        self.push_child(&mut ch, indent, Ghost(p0), Ghost(mid));
        let ghost mid2 = self.pos as int;
        let dashes = self.expect(SyntaxKind::Dashes, "expected dashes");
        self.push_child(&mut ch, dashes, Ghost(p0), Ghost(mid2));
        self.skip_ws(&mut ch, Ghost(p0));
        let ghost mid3 = self.pos as int;
        let maintainer = self.parse_maintainer();
        self.push_child(&mut ch, maintainer, Ghost(p0), Ghost(mid3));
        let ghost mid4 = self.pos as int;
        let ws = self.expect(SyntaxKind::Whitespace, "expected whitespace");
        self.push_child(&mut ch, ws, Ghost(p0), Ghost(mid4));
        let ghost mid5 = self.pos as int;
        let email = self.expect(SyntaxKind::Email, "expected email");
        self.push_child(&mut ch, email, Ghost(p0), Ghost(mid5));
        let ghost mid6 = self.pos as int;
        let ws2 = self.expect(SyntaxKind::Whitespace, "expected whitespace");
        self.push_child(&mut ch, ws2, Ghost(p0), Ghost(mid6));
        let ghost mid7 = self.pos as int;
        let ts = self.parse_timestamp();
        self.push_child(&mut ch, ts, Ghost(p0), Ghost(mid7));
        let ghost mid8 = self.pos as int;
        let nl = self.expect(SyntaxKind::Newline, "expected newline");
        self.push_child(&mut ch, nl, Ghost(p0), Ghost(mid8));
        GreenNode::Branch { kind: SyntaxKind::EntryFooter, children: ch }
    }

    /// One changelog entry: a header, then body and blank lines, then a
    /// footer, which closes the entry.
    #[verifier::loop_isolation(false)]
    fn parse_entry(&mut self) -> (n: GreenNode)
        requires
            old(self).wf(),
        ensures
            step_ok(*old(self), *final(self), n),
            n.model() is Branch,
            n.model().kind() == SyntaxKind::Entry,
            entry_shape(n.model()),
            old(self).pos < old(self).toks@.len() ==> final(self).pos > old(self).pos,
            final(self).pos as int == sp_entry(toks_model(old(self).toks@), old(self).pos as int).0,
            final(self).errors@.len() == old(self).errors@.len() + sp_entry(
                toks_model(old(self).toks@),
                old(self).pos as int,
            ).1,
    {
        let ghost p0 = self.pos as int;
        let ghost m = toks_model(self.toks@);
        let ghost err0 = old(self).errors@.len() as int;
        let mut ch: Vec<GreenNode> = Vec::new();
        proof {
            lemma_range_text_empty(self.toks@, p0);
            assert(m.len() == self.toks@.len());
        }
        let ghost mid = self.pos as int;
        let header = self.parse_entry_header();
        let ghost empty_ch = models_of(ch@);
        proof {
            lemma_models_of_push(ch@, header);
        }
        self.push_child(&mut ch, header, Ghost(p0), Ghost(mid));
        proof {
            assert(models_of(ch@) == empty_ch.push(header.model()));
            assert(empty_ch.len() == 0);
            assert(models_of(ch@)[0] == header.model());
            assert(at_least(sp_header(m, p0).0, p0) == sp_header(m, p0).0);
        }
        let ghost p1 = self.pos as int;
        let ghost errh = self.errors@.len() as int;
        let mut done = false;
        while !done
            invariant
                self.wf(),
                self.toks == old(self).toks,
                p0 <= p1 <= self.pos as int,
                texts(models_of(ch@)) == range_text(self.toks@, p0, self.pos as int),
                wf_all(models_of(ch@)),
                self.errors@.len() == old(self).errors@.len() + error_count_all(models_of(ch@)),
                models_of(ch@).len() > 0,
                models_of(ch@)[0] is Branch,
                models_of(ch@)[0].kind() == SyntaxKind::EntryHeader,
                !done ==> sp_entry_items(m, p1).0 == sp_entry_items(m, self.pos as int).0,
                !done ==> sp_entry_items(m, p1).1 + errh == self.errors@.len() + sp_entry_items(
                    m,
                    self.pos as int,
                ).1,
                done ==> self.pos as int == sp_entry_items(m, p1).0,
                done ==> self.errors@.len() == errh + sp_entry_items(m, p1).1,
            decreases self.toks@.len() - self.pos as int, (if done {
                0int
            } else {
                1int
            }),
        {
            let ghost before = models_of(ch@);
            let ghost ph = self.pos as int;
            proof {
                if self.pos < self.toks.len() {
                    assert(m[ph] == (self.toks@[ph].0, self.toks@[ph].1@));
                }
            }
            if self.pos >= self.toks.len() {
                let ghost mid2 = self.pos as int;
                let err = self.error("unexpected end of file");
                proof {
                    lemma_models_of_push(ch@, err);
                }
                self.push_child(&mut ch, err, Ghost(p0), Ghost(mid2));
                proof {
                    assert(models_of(ch@) == before.push(err.model()));
                    assert(models_of(ch@)[0] == before[0]);
                }
                done = true;
            } else if self.at(SyntaxKind::Newline) {
                let ghost mid2 = self.pos as int;
                let blank = self.parse_empty_line();
                proof {
                    lemma_models_of_push(ch@, blank);
                }
                self.push_child(&mut ch, blank, Ghost(p0), Ghost(mid2));
                proof {
                    assert(models_of(ch@) == before.push(blank.model()));
                    assert(models_of(ch@)[0] == before[0]);
                    assert(sp_entry_items(m, ph) == sp_entry_items(m, ph + 1));
                    assert(self.pos as int == ph + 1);
                    assert(sp_entry_items(m, p1).1 + errh == self.errors@.len()
                        + sp_entry_items(m, self.pos as int).1);
                }
            } else if self.at(SyntaxKind::Indent) {
                // A two-space indent starts a body line, a one-space indent
                // a footer line, which ends the entry.
                let wide = self.toks[self.pos].1.as_str().unicode_len() >= 2;
                let ghost mid2 = self.pos as int;
                if wide {
                    let body = self.parse_entry_body();
                    proof {
                        lemma_models_of_push(ch@, body);
                    }
                    self.push_child(&mut ch, body, Ghost(p0), Ghost(mid2));
                    proof {
                        assert(models_of(ch@) == before.push(body.model()));
                        assert(models_of(ch@)[0] == before[0]);
                        assert(at_least(sp_body(m, ph).0, ph + 1) == sp_body(m, ph).0);
                        assert(sp_entry_items(m, ph).0 == sp_entry_items(m, sp_body(m, ph).0).0);
                        assert(sp_entry_items(m, ph).1 == sp_body(m, ph).1 + sp_entry_items(
                            m,
                            sp_body(m, ph).0,
                        ).1);
                        assert(self.pos as int == sp_body(m, ph).0);
                        assert(sp_entry_items(m, p1).1 + errh == self.errors@.len()
                            + sp_entry_items(m, self.pos as int).1);
                    }
                } else {
                    let footer = self.parse_entry_footer();
                    proof {
                        lemma_models_of_push(ch@, footer);
                    }
                    self.push_child(&mut ch, footer, Ghost(p0), Ghost(mid2));
                    proof {
                        assert(models_of(ch@) == before.push(footer.model()));
                        assert(models_of(ch@)[0] == before[0]);
                    }
                    done = true;
                }
            } else {
                done = true;
            }
        }
        GreenNode::Branch { kind: SyntaxKind::Entry, children: ch }
    }

    /// The whole changelog: entries, blank lines and comments, with anything
    /// else wrapped in error nodes, until the tokens run out.
    #[verifier::loop_isolation(false)]
    fn parse_root(&mut self) -> (n: GreenNode)
        requires
            old(self).wf(),
        ensures
            step_ok(*old(self), *final(self), n),
            n.model().kind() == SyntaxKind::Root,
            root_shape(n.model()),
            final(self).pos == final(self).toks@.len(),
            final(self).errors@.len() == old(self).errors@.len() + sp_root(
                toks_model(old(self).toks@),
                old(self).pos as int,
            ).1,
            old(self).toks@.len() == 0 ==> final(self).errors == old(self).errors && n.model()
                == (TreeModel::Branch { kind: SyntaxKind::Root, children: Seq::empty() }),
    {
        let ghost p0 = self.pos as int;
        let ghost m = toks_model(self.toks@);
        let ghost err0 = old(self).errors@.len() as int;
        let mut ch: Vec<GreenNode> = Vec::new();
        proof {
            lemma_range_text_empty(self.toks@, p0);
            assert(m.len() == self.toks@.len());
        }
        while self.pos < self.toks.len()
            invariant
                self.wf(),
                self.toks == old(self).toks,
                p0 <= self.pos as int,
                texts(models_of(ch@)) == range_text(self.toks@, p0, self.pos as int),
                wf_all(models_of(ch@)),
                self.errors@.len() == old(self).errors@.len() + error_count_all(models_of(ch@)),
                self.toks@.len() == 0 ==> ch@.len() == 0 && self.errors == old(self).errors,
                sp_root(m, p0).1 + err0 == self.errors@.len() + sp_root(m, self.pos as int).1,
                forall|j: int|
                    0 <= j < models_of(ch@).len() ==> root_child_ok(#[trigger] models_of(ch@)[j]),
                forall|j: int|
                    0 <= j < models_of(ch@).len() ==> (#[trigger] models_of(ch@)[j]) is Branch
                        && models_of(ch@)[j].kind() == SyntaxKind::Entry ==> entry_shape(
                        models_of(ch@)[j],
                    ),
            decreases self.toks@.len() - self.pos as int,
        {
            let ghost before = models_of(ch@);
            let ghost ph = self.pos as int;
            proof {
                assert(m[ph] == (self.toks@[ph].0, self.toks@[ph].1@));
            }
            if self.at(SyntaxKind::Newline) {
                let ghost mid = self.pos as int;
                let blank = self.parse_empty_line();
                proof {
                    lemma_models_of_push(ch@, blank);
                    lemma_root_children_extend(models_of(ch@), blank.model());
                }
                self.push_child(&mut ch, blank, Ghost(p0), Ghost(mid));
            } else if self.at(SyntaxKind::Comment) {
                let ghost mid = self.pos as int;
                let leaf = self.bump();
                proof {
                    lemma_models_of_push(ch@, leaf);
                    lemma_root_children_extend(models_of(ch@), leaf.model());
                }
                self.push_child(&mut ch, leaf, Ghost(p0), Ghost(mid));
            } else if self.at(SyntaxKind::Identifier) {
                let ghost mid = self.pos as int;
                let entry = self.parse_entry();
                proof {
                    lemma_models_of_push(ch@, entry);
                    lemma_root_children_extend(models_of(ch@), entry.model());
                    assert(next_pos(m, ph, sp_entry(m, ph).0) == sp_entry(m, ph).0);
                }
                self.push_child(&mut ch, entry, Ghost(p0), Ghost(mid));
            } else {
                let ghost mid = self.pos as int;
                let err = self.error("unexpected token");
                proof {
                    lemma_models_of_push(ch@, err);
                    lemma_root_children_extend(models_of(ch@), err.model());
                }
                self.push_child(&mut ch, err, Ghost(p0), Ghost(mid));
            }
        }
        proof {
            assert(sp_root(m, self.pos as int).1 == 0);
        }
        proof {
            if old(self).toks@.len() == 0 {
                assert(models_of(ch@) =~= Seq::<TreeModel>::empty());
                assert((GreenNode::Branch { kind: SyntaxKind::Root, children: ch }).model()
                    =~= (TreeModel::Branch { kind: SyntaxKind::Root, children: Seq::empty() }));
            }
        }
        GreenNode::Branch { kind: SyntaxKind::Root, children: ch }
    }
}

/// Parse a changelog text. The tree always comes back, with a diagnostic
/// list beside it: its root covers the input byte for byte, every node is
/// well formed, and the root is the root kind.
pub fn parse(text: &str) -> (p: Parse)
    ensures
        p.green_node.model().text() == text@,
        p.green_node.model().wf(),
        p.green_node.model().kind() == SyntaxKind::Root,
        root_shape(p.green_node.model()),
        p.errors@.len() == error_count(p.green_node.model()),
        p.errors@.len() == parse_error_total(text@),
        text@.len() == 0 ==> p.errors@.len() == 0 && p.green_node.model() == (TreeModel::Branch {
            kind: SyntaxKind::Root,
            children: Seq::empty(),
        }),
{
    let toks = lex(text);
    let ghost ts = toks@;
    proof {
        assert(toks_model(ts).len() == ts.len());
        if text@.len() == 0 {
            assert(crate::lex::lex_spec(text@) =~= Seq::<(SyntaxKind, Seq<char>)>::empty());
            assert(ts.len() == 0);
        }
    }
    let mut parser = Parser { toks, pos: 0, errors: Vec::new() };
    let root = parser.parse_root();
    proof {
        assert(toks_model(ts).subrange(0, ts.len() as int) =~= toks_model(ts));
    }
    Parse { green_node: root, errors: parser.errors }
}

} // verus!
