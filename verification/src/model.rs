//! The mathematical model: a labelled tree as a value, the tree that a text
//! denotes, and the text that a tree is written as.

use crate::lexer::{after_token, is_label_text, is_space, lemma_after_token, token_at};
use vstd::prelude::*;

verus! {

/// A labelled tree: a label and the subtrees below it, in order.
pub ghost struct TreeModel {
    pub label: Seq<char>,
    pub children: Seq<TreeModel>,
}

impl TreeModel {
    /// A tree without children.
    pub open spec fn leaf(label: Seq<char>) -> TreeModel {
        TreeModel { label, children: Seq::empty() }
    }

    /// What holds of every tree that the builder yields: no label holds
    /// whitespace or a parenthesis, and a node without a label has no
    /// children.
    pub open spec fn is_parsed(self) -> bool
        decreases self,
    {
        &&& is_label_text(self.label)
        &&& (self.label.len() == 0 ==> self.children.len() == 0)
        &&& forall|i: int|
            0 <= i < self.children.len() ==> (#[trigger] self.children[i]).is_parsed()
    }

    /// Every node of the tree has a label, and no label holds whitespace or
    /// a parenthesis.
    pub open spec fn is_canonical(self) -> bool
        decreases self,
    {
        &&& self.label.len() > 0
        &&& is_label_text(self.label)
        &&& forall|i: int|
            0 <= i < self.children.len() ==> (#[trigger] self.children[i]).is_canonical()
    }

    /// The canonical text of the tree: a leaf is its bare label; any other
    /// node is, between parentheses, its label and then each child behind
    /// one space.
    pub open spec fn serialize(self) -> Seq<char>
        decreases self, self.children.len() + 1,
    {
        if self.children.len() == 0 {
            self.label
        } else {
            seq!['('] + self.label + self.serialize_children(self.children.len()) + seq![')']
        }
    }

    /// The text of the first `n` children, each behind one space.
    pub open spec fn serialize_children(self, n: nat) -> Seq<char>
        decreases self, n,
    {
        if n == 0 || n > self.children.len() {
            Seq::empty()
        } else {
            self.serialize_children((n - 1) as nat) + seq![' '] + self.children[n - 1].serialize()
        }
    }
}

/// The node that the builder yields, and the position it stops at, when it
/// starts at `pos` with the label and the children gathered so far.
///
/// Whitespace is passed over. A `(` opens the node itself while it has no
/// label, and a child subtree once it has one. A `)` closes the node. A
/// label token names the node if it has no label yet, else it becomes a leaf
/// child. The end of the text closes the node too.
///
/// The test on the position at which a child ends serves termination alone:
/// a child always ends behind its `(` and within the text.
pub open spec fn build(
    s: Seq<char>,
    pos: int,
    label: Seq<char>,
    children: Seq<TreeModel>,
) -> (TreeModel, int)
    decreases s.len() - pos,
{
    if !(0 <= pos < s.len()) {
        (TreeModel { label, children }, pos)
    } else {
        let next = after_token(s, pos);
        proof {
            lemma_after_token(s, pos);
        }
        if is_space(s[pos]) {
            build(s, next, label, children)
        } else if s[pos] == '(' {
            if label.len() == 0 {
                build(s, next, label, children)
            } else {
                let child = build(s, next, Seq::empty(), Seq::empty());
                if pos < child.1 <= s.len() {
                    build(s, child.1, label, children.push(child.0))
                } else {
                    (TreeModel { label, children }, pos)
                }
            }
        } else if s[pos] == ')' {
            (TreeModel { label, children }, next)
        } else if label.len() == 0 {
            build(s, next, token_at(s, pos), children)
        } else {
            build(s, next, label, children.push(TreeModel::leaf(token_at(s, pos))))
        }
    }
}

/// The tokens of `s` from position `pos` on: each parenthesis and each run
/// of label characters, in order, with the whitespace between them left out.
pub open spec fn tokens(s: Seq<char>, pos: int) -> Seq<Seq<char>>
    decreases s.len() - pos,
{
    if !(0 <= pos < s.len()) {
        Seq::empty()
    } else {
        proof {
            lemma_after_token(s, pos);
        }
        if is_space(s[pos]) {
            tokens(s, after_token(s, pos))
        } else {
            seq![token_at(s, pos)] + tokens(s, after_token(s, pos))
        }
    }
}

/// The tree that a line of text denotes.
pub open spec fn parse(s: Seq<char>) -> TreeModel {
    build(s, 0, Seq::empty(), Seq::empty()).0
}

} // verus!
