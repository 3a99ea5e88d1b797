//! The lossless concrete syntax tree.
//!
//! A node is either a branch (a kind plus an ordered child list) or a leaf
//! token (a kind plus its literal text). The tree carries no offsets; the
//! defining invariant is that concatenating the text of the leaves in
//! depth-first order reproduces the parsed input exactly.
//!
//! Contracts speak of a node's mathematical model, [`TreeModel`], in which
//! child lists and texts are sequences.

use vstd::prelude::*;

use crate::is_branch_kind;
use crate::is_leaf_kind;
use crate::SyntaxKind;

verus! {

/// The mathematical shape of a syntax tree: what a [`GreenNode`] denotes.
#[verifier::ext_equal]
pub enum TreeModel {
    Branch { kind: SyntaxKind, children: Seq<TreeModel> },
    Leaf { kind: SyntaxKind, text: Seq<char> },
}

impl TreeModel {
    pub open spec fn kind(self) -> SyntaxKind {
        match self {
            TreeModel::Branch { kind, .. } => kind,
            TreeModel::Leaf { kind, .. } => kind,
        }
    }

    /// The text a node covers: a leaf's literal, a branch's children in order.
    pub open spec fn text(self) -> Seq<char>
        decreases self, 1int,
    {
        match self {
            TreeModel::Leaf { text, .. } => text,
            TreeModel::Branch { children, .. } => texts(children),
        }
    }

    /// Every branch carries a branch kind and every leaf a leaf kind,
    /// recursively.
    pub open spec fn wf(self) -> bool
        decreases self, 1int,
    {
        match self {
            TreeModel::Leaf { kind, .. } => is_leaf_kind(kind),
            TreeModel::Branch { kind, children } => is_branch_kind(kind) && wf_all(children),
        }
    }
}

/// The concatenated text of a sequence of sibling nodes.
pub open spec fn texts(s: Seq<TreeModel>) -> Seq<char>
    decreases s, 0int,
{
    if s.len() == 0 {
        Seq::empty()
    } else {
        texts(s.drop_last()) + s.last().text()
    }
}

pub open spec fn wf_all(s: Seq<TreeModel>) -> bool
    decreases s, 0int,
{
    if s.len() == 0 {
        true
    } else {
        wf_all(s.drop_last()) && s.last().wf()
    }
}

pub proof fn lemma_texts_push(s: Seq<TreeModel>, m: TreeModel)
    ensures
        texts(s.push(m)) == texts(s) + m.text(),
        wf_all(s.push(m)) == (wf_all(s) && m.wf()),
{
    assert(s.push(m).drop_last() =~= s);
    assert(s.push(m).last() == m);
}

/// An immutable syntax tree node, built once by the parser.
pub enum GreenNode {
    Branch { kind: SyntaxKind, children: Vec<GreenNode> },
    Leaf { kind: SyntaxKind, text: String },
}

/// The models of a sequence of sibling nodes, in order.
pub open spec fn models_of(s: Seq<GreenNode>) -> Seq<TreeModel>
    decreases s, 0int,
{
    if s.len() == 0 {
        Seq::empty()
    } else {
        models_of(s.drop_last()).push(s.last().model())
    }
}

pub proof fn lemma_models_of_push(s: Seq<GreenNode>, n: GreenNode)
    ensures
        models_of(s.push(n)) == models_of(s).push(n.model()),
{
    assert(s.push(n).drop_last() =~= s);
    assert(s.push(n).last() == n);
}

pub proof fn lemma_models_of_index(s: Seq<GreenNode>, i: int)
    requires
        0 <= i < s.len(),
    ensures
        models_of(s).len() == s.len(),
        models_of(s)[i] == s[i].model(),
    decreases s.len(),
{
    lemma_models_of_len(s);
    if i == s.len() - 1 {
        lemma_models_of_len(s.drop_last());
    } else {
        assert(s.drop_last()[i] == s[i]);
        lemma_models_of_index(s.drop_last(), i);
    }
}

pub proof fn lemma_models_of_len(s: Seq<GreenNode>)
    ensures
        models_of(s).len() == s.len(),
    decreases s.len(),
{
    if s.len() > 0 {
        lemma_models_of_len(s.drop_last());
    }
}

proof fn lemma_node_decreases_to_child(n: GreenNode, children: Vec<GreenNode>, i: int)
    requires
        n matches GreenNode::Branch { children: c, .. } && c == children,
        0 <= i < children.len(),
    ensures
        decreases_to!(n => children@[i]),
{
    broadcast use vstd::std_specs::vec::group_vec_axioms;
    broadcast use vstd::seq::group_seq_axioms;

    assert(decreases_to!(n => children));
    assert(decreases_to!(children => children@));
    assert(decreases_to!(children@ => children@[i]));
}

impl GreenNode {
    /// What this node denotes.
    pub open spec fn model(self) -> TreeModel
        decreases self, 1int,
    {
        match self {
            GreenNode::Leaf { kind, text } => TreeModel::Leaf { kind, text: text@ },
            GreenNode::Branch { kind, children } => TreeModel::Branch {
                kind,
                children: models_of(children@),
            },
        }
    }

    /// Append this node's text, depth first, to `out`.
    #[verifier::loop_isolation(false)]
    fn text_into(&self, out: &mut String)
        ensures
            final(out)@ == old(out)@ + self.model().text(),
        decreases *self, 1int,
    {
        match self {
            GreenNode::Leaf { text, .. } => {
                out.append(text.as_str());
            },
            GreenNode::Branch { children, .. } => {
                let ghost all = children@;
                let mut i: usize = 0;
                while i < children.len()
                    invariant
                        i <= children.len(),
                        children@ == all,
                        out@ == old(out)@ + texts(models_of(all.subrange(0, i as int))),
                    decreases children.len() - i,
                {
                    proof {
                        assert(all.subrange(0, i + 1).drop_last() =~= all.subrange(0, i as int));
                        assert(all.subrange(0, i + 1).last() == all[i as int]);
                        lemma_texts_push(
                            models_of(all.subrange(0, i as int)),
                            all[i as int].model(),
                        );
                        lemma_node_decreases_to_child(*self, *children, i as int);
                    }
                    children[i].text_into(out);
                    i = i + 1;
                }
                proof {
                    assert(all.subrange(0, all.len() as int) =~= all);
                }
            },
        }
    }

    /// The text this node covers, as a fresh string.
    pub fn text(&self) -> (r: String)
        ensures
            r@ == self.model().text(),
    {
        let mut out = String::new();
        self.text_into(&mut out);
        out
    }

    /// A deep copy: the result denotes the very same tree.
    #[verifier::loop_isolation(false)]
    pub fn duplicate(&self) -> (r: GreenNode)
        ensures
            r.model() == self.model(),
        decreases *self, 1int,
    {
        match self {
            GreenNode::Leaf { kind, text } => GreenNode::Leaf { kind: *kind, text: text.clone() },
            GreenNode::Branch { kind, children } => {
                let mut copied: Vec<GreenNode> = Vec::new();
                let mut i: usize = 0;
                while i < children.len()
                    invariant
                        i <= children.len(),
                        models_of(copied@) =~= models_of(children@.subrange(0, i as int)),
                    decreases children.len() - i,
                {
                    proof {
                        lemma_node_decreases_to_child(*self, *children, i as int);
                    }
                    let c = children[i].duplicate();
                    proof {
                        lemma_models_of_push(copied@, c);
                        lemma_models_of_push(
                            children@.subrange(0, i as int),
                            children@[i as int],
                        );
                        assert(children@.subrange(0, i + 1).drop_last() =~= children@.subrange(
                            0,
                            i as int,
                        ));
                        assert(children@.subrange(0, i + 1) =~= children@.subrange(0, i as int).push(
                            children@[i as int],
                        ));
                    }
                    copied.push(c);
                    i = i + 1;
                }
                proof {
                    assert(children@.subrange(0, children@.len() as int) =~= children@);
                }
                GreenNode::Branch { kind: *kind, children: copied }
            },
        }
    }

    /// The kind tag of this node.
    pub fn kind_of(&self) -> (k: SyntaxKind)
        ensures
            k == self.model().kind(),
    {
        match self {
            GreenNode::Branch { kind, .. } => *kind,
            GreenNode::Leaf { kind, .. } => *kind,
        }
    }
}

} // verus!
