//! Trees in memory: nodes that own their children, built from text by
//! recursive descent, compared structurally and written back as text.

use crate::laws::lemma_build_is_parsed;
use crate::lexer::{after_token, label_end, lemma_after_token, string_push, token_at, Cursor};
use crate::model::{build, parse, TreeModel};
use vstd::prelude::*;
use vstd::string::StringExecFns;

verus! {

/// One labelled node and the subtrees it owns.
#[derive(Debug)]
pub struct Node {
    val: String,
    children: Vec<Node>,
}

/// One parsed line: a root node.
#[derive(Debug)]
pub struct Tree {
    root: Node,
}

/// The models of a sequence of nodes, in the same order.
pub open spec fn views(nodes: Seq<Node>) -> Seq<TreeModel> {
    Seq::new(nodes.len(), |i: int| nodes[i]@)
}

impl View for Node {
    type V = TreeModel;

    closed spec fn view(&self) -> TreeModel
        decreases self,
    {
        TreeModel {
            label: self.val@,
            children: Seq::new(
                self.children@.len(),
                |i: int|
                    if 0 <= i < self.children@.len() {
                        self.children@[i].view()
                    } else {
                        TreeModel::leaf(Seq::empty())
                    },
            ),
        }
    }
}

impl View for Tree {
    type V = TreeModel;

    closed spec fn view(&self) -> TreeModel {
        self.root@
    }
}

impl Node {
    proof fn lemma_view(&self)
        ensures
            self@ == (TreeModel { label: self.val@, children: views(self.children@) }),
    {
        assert(self@.children =~= views(self.children@));
    }

    /// A node with the given label and children.
    pub fn new(val: &str, children: Vec<Node>) -> (node: Node)
        ensures
            node@ == (TreeModel { label: val@, children: views(children@) }),
    {
        let node = Node { val: val.to_owned(), children };
        proof {
            node.lemma_view();
        }
        node
    }

    /// Reads the token at the cursor, and the whitespace that follows it.
    ///
    /// A parenthesis is a token by itself. Any other character that is no
    /// whitespace starts a label, which runs up to the next whitespace or
    /// parenthesis. At whitespace the token is empty.
    pub fn next_token(cur: &mut Cursor) -> (token: String)
        requires
            old(cur).wf(),
            old(cur).pos() < old(cur).text().len(),
        ensures
            final(cur).wf(),
            final(cur).text() == old(cur).text(),
            token@ == token_at(old(cur).text(), old(cur).pos()),
            final(cur).pos() == after_token(old(cur).text(), old(cur).pos()),
    {
        let ghost s = cur.text();
        let ghost start = cur.pos();
        let mut passed = String::new();
        if cur.at_space() {
            cur.skip_whitespace();
            return passed;
        }
        if !cur.at_label_char() {
            let c: char = cur.peek().unwrap();
            string_push(&mut passed, c);
            cur.advance();
            cur.skip_whitespace();
            return passed;
        }
        while cur.at_label_char()
            invariant
                cur.wf(),
                cur.text() == s,
                0 <= start <= cur.pos() <= s.len(),
                passed@ == s.subrange(start, cur.pos()),
                label_end(s, cur.pos()) == label_end(s, start),
            decreases s.len() - cur.pos(),
        {
            let c: char = cur.peek().unwrap();
            string_push(&mut passed, c);
            cur.advance();
            assert(passed@ =~= s.subrange(start, cur.pos()));
        }
        cur.skip_whitespace();
        passed
    }

    /// Builds one node from the text at the cursor, and leaves the cursor
    /// behind what the node took.
    pub fn from_chars(cur: &mut Cursor) -> (node: Node)
        requires
            old(cur).wf(),
        ensures
            final(cur).wf(),
            final(cur).text() == old(cur).text(),
            old(cur).pos() <= final(cur).pos(),
            (node@, final(cur).pos()) == build(
                old(cur).text(),
                old(cur).pos(),
                Seq::empty(),
                Seq::empty(),
            ),
            node@.is_parsed(),
        decreases old(cur).text().len() - old(cur).pos(),
    {
        let ghost s = cur.text();
        let ghost start = cur.pos();
        let mut val = String::new();
        let mut children: Vec<Node> = Vec::new();
        assert(views(children@) =~= Seq::empty());
        loop
            invariant_except_break
                build(s, cur.pos(), val@, views(children@)) == build(
                    s,
                    start,
                    Seq::empty(),
                    Seq::empty(),
                ),
            invariant
                cur.wf(),
                cur.text() == s,
                s == old(cur).text(),
                start == old(cur).pos(),
                0 <= start <= cur.pos() <= s.len(),
            ensures
                (TreeModel { label: val@, children: views(children@) }, cur.pos()) == build(
                    s,
                    start,
                    Seq::empty(),
                    Seq::empty(),
                ),
            decreases s.len() - cur.pos(),
        {
            let ghost pos = cur.pos();
            let ghost kids = views(children@);
            match cur.peek() {
                None => {
                    break ;
                },
                Some(c) => {
                    proof {
                        lemma_after_token(s, pos);
                    }
                    if cur.at_space() {
                        let _ = Node::next_token(cur);
                    } else if c == '(' {
                        let _ = Node::next_token(cur);
                        if !val.as_str().is_empty() {
                            let child = Node::from_chars(cur);
                            children.push(child);
                            assert(views(children@) =~= kids.push(child@));
                        }
                    } else if c == ')' {
                        let _ = Node::next_token(cur);
                        break ;
                    } else {
                        let label = Node::next_token(cur);
                        if val.as_str().is_empty() {
                            val = label;
                        } else {
                            let leaf = Node::new(label.as_str(), Vec::new());
                            assert(leaf@.children =~= Seq::empty());
                            children.push(leaf);
                            assert(views(children@) =~= kids.push(leaf@));
                        }
                    }
                },
            }
        }
        let node = Node { val, children };
        proof {
            node.lemma_view();
            lemma_build_is_parsed(s, start, Seq::empty(), Seq::empty());
        }
        node
    }

    /// Structural equality: the same label, and the same children in the
    /// same order.
    pub fn equals(&self, other: &Node) -> (same: bool)
        ensures
            same == (self@ == other@),
        decreases self,
    {
        proof {
            self.lemma_view();
            other.lemma_view();
        }
        if !(self.val == other.val) {
            return false;
        }
        if self.children.len() != other.children.len() {
            assert(self@.children.len() != other@.children.len());
            return false;
        }
        let n: usize = self.children.len();
        let mut i: usize = 0;
        while i < n
            invariant
                n == self.children.len(),
                n == other.children.len(),
                i <= n,
                self@ == (TreeModel { label: self.val@, children: views(self.children@) }),
                other@ == (TreeModel { label: other.val@, children: views(other.children@) }),
                self.val@ == other.val@,
                forall|k: int| 0 <= k < i ==> self.children@[k]@ == other.children@[k]@,
            decreases n - i,
        {
            if !self.children[i].equals(&other.children[i]) {
                assert(views(self.children@)[i as int] != views(other.children@)[i as int]);
                return false;
            }
            i += 1;
        }
        assert(views(self.children@) =~= views(other.children@));
        true
    }

    /// The canonical text of the node.
    pub fn to_string(&self) -> (text: String)
        ensures
            text@ == self@.serialize(),
        decreases self,
    {
        proof {
            self.lemma_view();
        }
        if self.children.len() == 0 {
            return self.val.clone();
        }
        let mut text = String::new();
        string_push(&mut text, '(');
        text.append(self.val.as_str());
        let n: usize = self.children.len();
        let mut i: usize = 0;
        while i < n
            invariant
                n == self.children.len(),
                i <= n,
                self@ == (TreeModel { label: self.val@, children: views(self.children@) }),
                text@ == seq!['('] + self.val@ + self@.serialize_children(i as nat),
            decreases n - i,
        {
            let child = self.children[i].to_string();
            string_push(&mut text, ' ');
            text.append(child.as_str());
            i += 1;
            assert(text@ =~= seq!['('] + self.val@ + self@.serialize_children(i as nat));
        }
        string_push(&mut text, ')');
        assert(text@ =~= self@.serialize());
        text
    }

    /// The label of the node.
    pub fn label(&self) -> (val: &str)
        ensures
            val@ == self@.label,
    {
        self.val.as_str()
    }

    /// The children of the node, in order.
    pub fn children(&self) -> (children: &Vec<Node>)
        ensures
            views(children@) == self@.children,
    {
        proof {
            self.lemma_view();
        }
        &self.children
    }
}

impl Tree {
    /// The tree that one line of text denotes.
    pub fn from_string(s: &str) -> (tree: Tree)
        ensures
            tree@ == parse(s@),
            tree@.is_parsed(),
    {
        let mut cur = Cursor::new(s);
        Tree { root: Node::from_chars(&mut cur) }
    }

    /// A tree with the given root.
    pub fn new(root: Node) -> (tree: Tree)
        ensures
            tree@ == root@,
    {
        Tree { root }
    }

    /// The root of the tree.
    pub fn root(&self) -> (root: &Node)
        ensures
            root@ == self@,
    {
        &self.root
    }

    /// Structural equality of the roots.
    pub fn equals(&self, other: &Tree) -> (same: bool)
        ensures
            same == (self@ == other@),
    {
        self.root.equals(&other.root)
    }

    /// The canonical text of the tree.
    pub fn to_string(&self) -> (text: String)
        ensures
            text@ == self@.serialize(),
    {
        self.root.to_string()
    }
}

} // verus!
