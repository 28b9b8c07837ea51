//! What holds of parsing and serialization together.

use crate::lexer::{
    after_token, is_label_char, is_label_text, is_space, label_end, lemma_after_token,
    lemma_label_end, skip_spaces, token_at,
};
use crate::tree::Tree;
use crate::model::{build, parse, tokens, TreeModel};
use vstd::prelude::*;

verus! {

/// The builder never moves backwards and never leaves the text.
pub proof fn lemma_build_advances(
    s: Seq<char>,
    pos: int,
    label: Seq<char>,
    children: Seq<TreeModel>,
)
    requires
        0 <= pos <= s.len(),
    ensures
        pos <= build(s, pos, label, children).1 <= s.len(),
    decreases s.len() - pos,
{
    if pos < s.len() {
        let next = after_token(s, pos);
        lemma_after_token(s, pos);
        if is_space(s[pos]) {
            lemma_build_advances(s, next, label, children);
        } else if s[pos] == '(' {
            if label.len() == 0 {
                lemma_build_advances(s, next, label, children);
            } else {
                let child = build(s, next, Seq::empty(), Seq::empty());
                lemma_build_advances(s, next, Seq::empty(), Seq::empty());
                lemma_build_advances(s, child.1, label, children.push(child.0));
            }
        } else if s[pos] == ')' {
        } else if label.len() == 0 {
            lemma_build_advances(s, next, token_at(s, pos), children);
        } else {
            lemma_build_advances(s, next, label, children.push(TreeModel::leaf(token_at(s, pos))));
        }
    }
}

/// A child subtree is built from the text behind its `(`, and the parent
/// goes on behind it: the builder's definition, without its guard.
pub proof fn lemma_build_child(s: Seq<char>, pos: int, label: Seq<char>, children: Seq<TreeModel>)
    requires
        0 <= pos < s.len(),
        s[pos] == '(',
        label.len() > 0,
    ensures
        build(s, pos, label, children) == ({
            let child = build(s, after_token(s, pos), Seq::empty(), Seq::empty());
            build(s, child.1, label, children.push(child.0))
        }),
{
    lemma_after_token(s, pos);
    lemma_build_advances(s, after_token(s, pos), Seq::empty(), Seq::empty());
}

/// A label token is a run of label characters, and not empty.
pub proof fn lemma_label_token(s: Seq<char>, pos: int)
    requires
        0 <= pos < s.len(),
        is_label_char(s[pos]),
    ensures
        token_at(s, pos).len() > 0,
        is_label_text(token_at(s, pos)),
{
    lemma_label_end(s, pos);
    assert(label_end(s, pos) == label_end(s, pos + 1));
}

/// A tree that the builder can yield stays one when a subtree of that kind
/// is added below its labelled root.
pub proof fn lemma_push_is_parsed(label: Seq<char>, children: Seq<TreeModel>, child: TreeModel)
    requires
        (TreeModel { label, children }).is_parsed(),
        label.len() > 0,
        child.is_parsed(),
    ensures
        (TreeModel { label, children: children.push(child) }).is_parsed(),
{
    let before = TreeModel { label, children };
    let after = TreeModel { label, children: children.push(child) };
    assert forall|i: int| 0 <= i < after.children.len() implies (
    #[trigger] after.children[i]).is_parsed() by {
        if i < children.len() {
            assert(after.children[i] == before.children[i]);
        }
    }
}

/// From a state that a parse can be in, the builder yields a tree whose
/// labels hold no whitespace and no parenthesis, and in which a node
/// without a label has no children.
pub proof fn lemma_build_is_parsed(
    s: Seq<char>,
    pos: int,
    label: Seq<char>,
    children: Seq<TreeModel>,
)
    requires
        0 <= pos <= s.len(),
        (TreeModel { label, children }).is_parsed(),
    ensures
        build(s, pos, label, children).0.is_parsed(),
    decreases s.len() - pos,
{
    if pos < s.len() {
        let next = after_token(s, pos);
        lemma_after_token(s, pos);
        if is_space(s[pos]) {
            lemma_build_is_parsed(s, next, label, children);
        } else if s[pos] == '(' {
            if label.len() == 0 {
                lemma_build_is_parsed(s, next, label, children);
            } else {
                let child = build(s, next, Seq::empty(), Seq::empty());
                lemma_build_advances(s, next, Seq::empty(), Seq::empty());
                lemma_build_is_parsed(s, next, Seq::empty(), Seq::empty());
                lemma_push_is_parsed(label, children, child.0);
                lemma_build_is_parsed(s, child.1, label, children.push(child.0));
            }
        } else if s[pos] == ')' {
        } else {
            lemma_label_token(s, pos);
            if label.len() == 0 {
                lemma_build_is_parsed(s, next, token_at(s, pos), children);
            } else {
                let leaf = TreeModel::leaf(token_at(s, pos));
                lemma_push_is_parsed(label, children, leaf);
                lemma_build_is_parsed(s, next, label, children.push(leaf));
            }
        }
    }
}

/// Every text denotes a tree whose labels hold no whitespace and no
/// parenthesis, and in which a node without a label has no children.
pub proof fn lemma_parse_is_parsed(s: Seq<char>)
    ensures
        parse(s).is_parsed(),
{
    lemma_build_is_parsed(s, 0, Seq::empty(), Seq::empty());
}

/// A text without whitespace and parentheses denotes the leaf that has the
/// whole text as its label.
pub proof fn lemma_parse_label(label: Seq<char>)
    requires
        is_label_text(label),
    ensures
        parse(label) == TreeModel::leaf(label),
{
    let none = Seq::<char>::empty();
    let start = build(label, 0, none, Seq::empty());
    if label.len() > 0 {
        lemma_label_end(label, 0);
        let end = label_end(label, 0);
        assert(end == label.len());
        assert(token_at(label, 0) =~= label);
        assert(after_token(label, 0) == label.len());
        assert(start == build(label, end, label, Seq::empty()));
        assert(build(label, end, label, Seq::empty()) == (TreeModel::leaf(label), end));
    } else {
        assert(label =~= none);
    }
}

/// The text `w` stands in `s` at position `p`.
pub open spec fn has_at(s: Seq<char>, p: int, w: Seq<char>) -> bool {
    &&& 0 <= p
    &&& p + w.len() <= s.len()
    &&& forall|i: int| 0 <= i < w.len() ==> s[p + i] == #[trigger] w[i]
}

/// A run of label characters that ends at `e` is what `label_end` finds.
pub proof fn lemma_label_run(s: Seq<char>, p: int, e: int)
    requires
        0 <= p <= e <= s.len(),
        forall|k: int| p <= k < e ==> is_label_char(#[trigger] s[k]),
        e == s.len() || !is_label_char(s[e]),
    ensures
        label_end(s, p) == e,
    decreases e - p,
{
    if p < e {
        lemma_label_run(s, p + 1, e);
    }
}

/// The text of a tree in which every node has a label starts with `(` or
/// with a label character.
pub proof fn lemma_serialize_head(t: TreeModel)
    requires
        t.is_canonical(),
    ensures
        t.serialize().len() > 0,
        !is_space(t.serialize()[0]),
        t.serialize()[0] != ')',
{
    if t.children.len() == 0 {
        assert(is_label_char(t.label[0]));
    }
}

/// The text of one child or more starts with a space.
pub proof fn lemma_children_head(t: TreeModel, m: nat)
    requires
        1 <= m <= t.children.len(),
    ensures
        t.serialize_children(m).len() > 0,
        t.serialize_children(m)[0] == ' ',
    decreases m,
{
    let prev = t.serialize_children((m - 1) as nat);
    let all = t.serialize_children(m);
    assert(all == prev + seq![' '] + t.children[m - 1].serialize());
    if m > 1 {
        lemma_children_head(t, (m - 1) as nat);
        assert(all[0] == prev[0]);
    } else {
        assert(prev.len() == 0);
        assert(all[0] == ' ');
    }
}

/// Behind its `(`, the text of a node with children is built into that node,
/// up to and including its `)` and the whitespace that follows.
pub proof fn lemma_build_frame(s: Seq<char>, p: int, t: TreeModel)
    requires
        t.is_canonical(),
        t.children.len() > 0,
        has_at(s, p, t.serialize()),
    ensures
        build(s, p + 1, Seq::empty(), Seq::empty()) == (
            t,
            skip_spaces(s, p + t.serialize().len()),
        ),
    decreases t, 1int, 0int,
{
    let n = t.children.len();
    let lab = t.label;
    let l = lab.len() as int;
    let sc = t.serialize_children(n);
    let w = t.serialize();
    let base = p + 1 + l;
    let e = p + w.len();
    assert(w == seq!['('] + lab + sc + seq![')']);
    assert(w.len() == l + sc.len() + 2);
    assert forall|i: int| 0 <= i < l implies s[p + 1 + i] == #[trigger] lab[i] by {
        assert(w[1 + i] == lab[i]);
    }
    assert forall|j: int| 0 <= j < sc.len() implies s[base + j] == #[trigger] sc[j] by {
        assert(w[1 + l + j] == sc[j]);
    }
    assert(has_at(s, base, sc));
    assert(s[e - 1] == ')') by {
        assert(w[w.len() - 1] == ')');
    }
    lemma_children_head(t, n);
    assert(s[base] == ' ') by {
        assert(s[base + 0] == sc[0]);
    }
    assert forall|k: int| p + 1 <= k < base implies is_label_char(#[trigger] s[k]) by {
        assert(s[p + 1 + (k - p - 1)] == lab[k - p - 1]);
    }
    lemma_label_run(s, p + 1, base);
    assert(is_label_char(s[p + 1]));
    assert(token_at(s, p + 1) =~= lab);
    assert(after_token(s, p + 1) == skip_spaces(s, base));
    assert(build(s, p + 1, Seq::empty(), Seq::empty()) == build(
        s,
        skip_spaces(s, base),
        lab,
        Seq::empty(),
    ));
    lemma_build_children(s, base, t, n);
    assert(t.children.subrange(0, n as int) =~= t.children);
    assert(skip_spaces(s, e - 1) == e - 1);
    assert(after_token(s, e - 1) == skip_spaces(s, e));
    assert(build(s, e - 1, lab, t.children) == (t, skip_spaces(s, e)));
}

/// The text of the first `m` children of a node, where a space or a `)`
/// follows it, is built into those children.
pub proof fn lemma_build_children(s: Seq<char>, base: int, t: TreeModel, m: nat)
    requires
        t.is_canonical(),
        m <= t.children.len(),
        has_at(s, base, t.serialize_children(m)),
        base + t.serialize_children(m).len() < s.len(),
        s[base + t.serialize_children(m).len()] == ' ' || s[base + t.serialize_children(
            m,
        ).len()] == ')',
    ensures
        build(s, skip_spaces(s, base), t.label, Seq::empty()) == build(
            s,
            skip_spaces(s, base + t.serialize_children(m).len()),
            t.label,
            t.children.subrange(0, m as int),
        ),
    decreases t, 0int, m,
{
    if m == 0 {
        assert(t.children.subrange(0, 0) =~= Seq::empty());
    } else {
        let c = t.children[m - 1];
        let prev = t.serialize_children((m - 1) as nat);
        let cw = c.serialize();
        let all = t.serialize_children(m);
        assert(all == prev + seq![' '] + cw);
        let x = base + prev.len();
        assert forall|i: int| 0 <= i < prev.len() implies s[base + i] == #[trigger] prev[i] by {
            assert(all[i] == prev[i]);
        }
        assert(s[x] == ' ') by {
            assert(s[base + prev.len()] == all[prev.len() as int]);
        }
        assert forall|i: int| 0 <= i < cw.len() implies s[x + 1 + i] == #[trigger] cw[i] by {
            assert(s[base + (prev.len() + 1 + i)] == all[prev.len() + 1 + i]);
        }
        assert(has_at(s, x + 1, cw));
        lemma_build_children(s, base, t, (m - 1) as nat);
        lemma_serialize_head(c);
        assert(s[x + 1] == cw[0]) by {
            assert(s[x + 1 + 0] == cw[0]);
        }
        assert(skip_spaces(s, x + 1) == x + 1);
        assert(skip_spaces(s, x) == x + 1);
        let kids = t.children.subrange(0, m - 1);
        lemma_build_one_child(s, x + 1, c, t.label, kids);
        assert(kids.push(c) =~= t.children.subrange(0, m as int));
    }
}

/// Below a labelled node, the text of a tree in which every node has a
/// label, where a space or a `)` follows it, is built into one more child.
pub proof fn lemma_build_one_child(
    s: Seq<char>,
    p: int,
    t: TreeModel,
    label: Seq<char>,
    children: Seq<TreeModel>,
)
    requires
        t.is_canonical(),
        label.len() > 0,
        has_at(s, p, t.serialize()),
        p + t.serialize().len() < s.len(),
        s[p + t.serialize().len()] == ' ' || s[p + t.serialize().len()] == ')',
    ensures
        build(s, p, label, children) == build(
            s,
            skip_spaces(s, p + t.serialize().len()),
            label,
            children.push(t),
        ),
    decreases t, 2int, 0int,
{
    let w = t.serialize();
    let e = p + w.len();
    lemma_serialize_head(t);
    assert(s[p] == w[0]) by {
        assert(s[p + 0] == w[0]);
    }
    if t.children.len() == 0 {
        assert forall|k: int| p <= k < e implies is_label_char(#[trigger] s[k]) by {
            assert(s[p + (k - p)] == w[k - p]);
        }
        lemma_label_run(s, p, e);
        assert(token_at(s, p) =~= t.label);
        assert(t.children =~= Seq::empty());
        assert(t == TreeModel::leaf(t.label));
        assert(after_token(s, p) == skip_spaces(s, e));
    } else {
        lemma_build_frame(s, p, t);
        assert(s[p + 1] == t.label[0]) by {
            assert(s[p + 1] == w[1]);
        }
        assert(is_label_char(t.label[0]));
        assert(skip_spaces(s, p + 1) == p + 1);
        assert(after_token(s, p) == p + 1);
        lemma_build_child(s, p, label, children);
    }
}

/// Writing a tree as text and parsing that text gives the tree back, for
/// every tree that a parse can yield and in which every node below the root
/// has a label.
pub proof fn lemma_round_trip(t: TreeModel)
    requires
        t.is_parsed(),
        forall|i: int| 0 <= i < t.children.len() ==> (#[trigger] t.children[i]).is_canonical(),
    ensures
        parse(t.serialize()) == t,
{
    let s = t.serialize();
    if t.children.len() == 0 {
        assert(t.children =~= Seq::empty());
        lemma_parse_label(t.label);
    } else {
        assert(t.is_canonical());
        assert(has_at(s, 0, s));
        lemma_build_frame(s, 0, t);
        lemma_serialize_head(t);
        assert(s[1] == t.label[0]);
        assert(is_label_char(t.label[0]));
        assert(skip_spaces(s, 1) == 1);
        assert(after_token(s, 0) == 1);
        assert(build(s, 0, Seq::empty(), Seq::empty()) == build(
            s,
            1,
            Seq::empty(),
            Seq::empty(),
        ));
    }
}

/// A token that starts at a character that is no whitespace starts with
/// that character.
pub proof fn lemma_token_head(s: Seq<char>, pos: int)
    requires
        0 <= pos < s.len(),
        !is_space(s[pos]),
    ensures
        token_at(s, pos).len() > 0,
        token_at(s, pos)[0] == s[pos],
{
    if is_label_char(s[pos]) {
        lemma_label_end(s, pos + 1);
    }
}

/// From two positions in two texts behind which the same tokens stand, the
/// builder yields the same node, and stops where the same tokens are left.
pub proof fn lemma_build_same_tokens(
    a: Seq<char>,
    pa: int,
    b: Seq<char>,
    pb: int,
    label: Seq<char>,
    children: Seq<TreeModel>,
)
    requires
        0 <= pa <= a.len(),
        0 <= pb <= b.len(),
        tokens(a, pa) == tokens(b, pb),
    ensures
        build(a, pa, label, children).0 == build(b, pb, label, children).0,
        tokens(a, build(a, pa, label, children).1) == tokens(
            b,
            build(b, pb, label, children).1,
        ),
    decreases (a.len() - pa) + (b.len() - pb),
{
    if pa < a.len() && is_space(a[pa]) {
        lemma_after_token(a, pa);
        lemma_build_same_tokens(a, after_token(a, pa), b, pb, label, children);
    } else if pb < b.len() && is_space(b[pb]) {
        lemma_after_token(b, pb);
        lemma_build_same_tokens(a, pa, b, after_token(b, pb), label, children);
    } else if pa >= a.len() || pb >= b.len() {
        if pa < a.len() {
            assert(tokens(a, pa).len() > 0);
        }
        if pb < b.len() {
            assert(tokens(b, pb).len() > 0);
        }
    } else {
        let ta = token_at(a, pa);
        let tb = token_at(b, pb);
        let na = after_token(a, pa);
        let nb = after_token(b, pb);
        lemma_after_token(a, pa);
        lemma_after_token(b, pb);
        let ra = tokens(a, na);
        let rb = tokens(b, nb);
        assert(tokens(a, pa) == seq![ta] + ra);
        assert(tokens(b, pb) == seq![tb] + rb);
        assert(ta == tb) by {
            assert((seq![ta] + ra)[0] == ta);
            assert((seq![tb] + rb)[0] == tb);
        }
        assert(ra == rb) by {
            assert((seq![ta] + ra).drop_first() =~= ra);
            assert((seq![tb] + rb).drop_first() =~= rb);
        }
        lemma_token_head(a, pa);
        lemma_token_head(b, pb);
        assert(a[pa] == b[pb]);
        if a[pa] == '(' {
            if label.len() == 0 {
                lemma_build_same_tokens(a, na, b, nb, label, children);
            } else {
                let none = Seq::<char>::empty();
                let ca = build(a, na, none, Seq::empty());
                let cb = build(b, nb, none, Seq::empty());
                lemma_build_same_tokens(a, na, b, nb, none, Seq::empty());
                lemma_build_advances(a, na, none, Seq::empty());
                lemma_build_advances(b, nb, none, Seq::empty());
                lemma_build_child(a, pa, label, children);
                lemma_build_child(b, pb, label, children);
                lemma_build_same_tokens(a, ca.1, b, cb.1, label, children.push(ca.0));
            }
        } else if a[pa] == ')' {
        } else if label.len() == 0 {
            lemma_build_same_tokens(a, na, b, nb, ta, children);
        } else {
            lemma_build_same_tokens(a, na, b, nb, label, children.push(TreeModel::leaf(ta)));
        }
    }
}

/// Two texts with the same tokens denote the same tree, however the
/// whitespace between the tokens is laid out.
pub proof fn lemma_same_tokens_same_tree(a: Seq<char>, b: Seq<char>)
    requires
        tokens(a, 0) == tokens(b, 0),
    ensures
        parse(a) == parse(b),
{
    lemma_build_same_tokens(a, 0, b, 0, Seq::empty(), Seq::empty());
}

/// Two trees of the kind that `lemma_round_trip` speaks of are the same
/// tree if they are written as the same text.
pub proof fn lemma_serialize_injective(t: TreeModel, u: TreeModel)
    requires
        t.is_parsed(),
        forall|i: int| 0 <= i < t.children.len() ==> (#[trigger] t.children[i]).is_canonical(),
        u.is_parsed(),
        forall|i: int| 0 <= i < u.children.len() ==> (#[trigger] u.children[i]).is_canonical(),
        t.serialize() == u.serialize(),
    ensures
        t == u,
{
    lemma_round_trip(t);
    lemma_round_trip(u);
}

/// Serialization is deterministic: two texts that `Tree::to_string` can
/// return for one tree are the same text.
pub proof fn lemma_serialize_deterministic(tree: Tree, first: String, second: String)
    requires
        first@ == tree@.serialize(),
        second@ == tree@.serialize(),
    ensures
        first@ == second@,
{
}

} // verus!
