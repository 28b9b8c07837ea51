use evalb::lexer::Cursor;
use evalb::lines::{compare_line_counts, LineCount};
use evalb::tree::{Node, Tree};

fn leaf(label: &str) -> Node {
    Node::new(label, vec![])
}

fn node(label: &str, children: Vec<Node>) -> Node {
    Node::new(label, children)
}

fn tree(root: Node) -> Tree {
    Tree::new(root)
}

#[test]
fn tree_from_string_works() {
    assert_eq!(Tree::from_string("a"), tree(leaf("a")));
    assert_eq!(Tree::from_string("(a b)"), tree(node("a", vec![leaf("b")])));
    assert_eq!(
        Tree::from_string("(a b c)"),
        tree(node("a", vec![leaf("b"), leaf("c")]))
    );
    assert_eq!(
        Tree::from_string("(a b (c d))"),
        tree(node("a", vec![leaf("b"), node("c", vec![leaf("d")])]))
    );
    assert_eq!(
        Tree::from_string("(a b (c d e))"),
        tree(node(
            "a",
            vec![leaf("b"), node("c", vec![leaf("d"), leaf("e")])]
        ))
    );
    assert_eq!(
        Tree::from_string("(a (b c d) (e f g))"),
        tree(node(
            "a",
            vec![
                node("b", vec![leaf("c"), leaf("d")]),
                node("e", vec![leaf("f"), leaf("g")]),
            ]
        ))
    );
    assert_eq!(
        Tree::from_string("(a (b (c d (e f)) (g h)) (i (j k) (l m n)))"),
        tree(node(
            "a",
            vec![
                node(
                    "b",
                    vec![
                        node("c", vec![leaf("d"), node("e", vec![leaf("f")])]),
                        node("g", vec![leaf("h")]),
                    ]
                ),
                node(
                    "i",
                    vec![
                        node("j", vec![leaf("k")]),
                        node("l", vec![leaf("m"), leaf("n")]),
                    ]
                ),
            ]
        ))
    );

    assert_eq!(Tree::from_string("-a-"), tree(leaf("-a-")));
    assert_eq!(
        Tree::from_string(
            "(-a- (-b- (-c- -d- (-e- -f-)) (-g- -h-)) (-i- (-j- -k-) (-l- -m- -n-)))"
        ),
        tree(node(
            "-a-",
            vec![
                node(
                    "-b-",
                    vec![
                        node("-c-", vec![leaf("-d-"), node("-e-", vec![leaf("-f-")])]),
                        node("-g-", vec![leaf("-h-")]),
                    ]
                ),
                node(
                    "-i-",
                    vec![
                        node("-j-", vec![leaf("-k-")]),
                        node("-l-", vec![leaf("-m-"), leaf("-n-")]),
                    ]
                ),
            ]
        ))
    );
}

#[test]
fn bare_label_is_a_leaf() {
    let t = Tree::from_string("NP-SBJ");
    assert_eq!(t.root().label(), "NP-SBJ");
    assert!(t.root().children().is_empty());
}

#[test]
fn children_keep_their_order() {
    let t = Tree::from_string("(a b c)");
    let kids = t.root().children();
    assert_eq!(kids.len(), 2);
    assert_eq!(kids[0].label(), "b");
    assert_eq!(kids[1].label(), "c");
    assert_ne!(t, tree(node("a", vec![leaf("c"), leaf("b")])));
}

#[test]
fn nesting_depth_is_kept() {
    let t = Tree::from_string("(a (b c d) (e f g))");
    let root = t.root();
    assert_eq!(root.label(), "a");
    assert_eq!(root.children().len(), 2);
    let b = &root.children()[0];
    let e = &root.children()[1];
    assert_eq!(b.label(), "b");
    assert_eq!(b.children().len(), 2);
    assert_eq!(b.children()[0].label(), "c");
    assert_eq!(b.children()[1].label(), "d");
    assert!(b.children()[0].children().is_empty());
    assert_eq!(e.label(), "e");
    assert_eq!(e.children().len(), 2);
    assert_eq!(e.children()[0].label(), "f");
    assert_eq!(e.children()[1].label(), "g");
}

#[test]
fn hyphenated_labels_survive() {
    assert_eq!(Tree::from_string("-a-").root().label(), "-a-");
    let t = Tree::from_string("(-a- (-b- -c-))");
    assert_eq!(t.to_string(), "(-a- (-b- -c-))");
    assert_eq!(Tree::from_string(&t.to_string()), t);
    assert_eq!(t, tree(node("-a-", vec![node("-b-", vec![leaf("-c-")])])));
}

#[test]
fn irregular_spacing_is_ignored() {
    assert_eq!(Tree::from_string("(a  b   c)"), Tree::from_string("(a b c)"));
    assert_eq!(
        Tree::from_string("  ( a\tb \n c )  "),
        Tree::from_string("(a b c)")
    );
    assert_eq!(
        Tree::from_string("(a(b c)(d e))"),
        Tree::from_string("(a (b c) (d e))")
    );
}

#[test]
fn unicode_whitespace_separates_tokens() {
    assert_eq!(
        Tree::from_string("(a\u{a0}b\u{3000}c\u{2003}d)"),
        tree(node("a", vec![leaf("b"), leaf("c"), leaf("d")]))
    );
    assert_eq!(Tree::from_string("a\u{200b}b"), tree(leaf("a\u{200b}b")));
}

#[test]
fn serialization_is_canonical() {
    assert_eq!(Tree::from_string("a").to_string(), "a");
    assert_eq!(Tree::from_string("(a)").to_string(), "a");
    assert_eq!(Tree::from_string("( a   b  c )").to_string(), "(a b c)");
    assert_eq!(
        Tree::from_string("(S (NP the dog) (VP barks))").to_string(),
        "(S (NP the dog) (VP barks))"
    );
    assert_eq!(
        tree(node("a", vec![node("b", vec![leaf("c")]), leaf("d")])).to_string(),
        "(a (b c) d)"
    );
}

#[test]
fn serialization_is_deterministic() {
    let t = Tree::from_string("(a (b c d) (e f g))");
    assert_eq!(t.to_string(), t.to_string());
    assert_eq!(t.root().to_string(), t.to_string());
}

#[test]
fn round_trip_gives_the_same_tree() {
    for text in [
        "",
        "a",
        "(a b)",
        "( a (b  c) d)",
        "(a (b (c d (e f)) (g h)) (i (j k) (l m n)))",
        "(S (NP x) (VP y))",
    ] {
        let t = Tree::from_string(text);
        assert_eq!(Tree::from_string(&t.to_string()), t);
    }
}

#[test]
fn child_without_label_is_lost_on_round_trip() {
    let t = Tree::from_string("(a ())");
    assert_eq!(t, tree(node("a", vec![leaf("")])));
    assert_eq!(t.to_string(), "(a )");
    assert_eq!(Tree::from_string(&t.to_string()), tree(leaf("a")));
}

#[test]
fn malformed_text_gives_a_best_effort_tree() {
    assert_eq!(Tree::from_string(""), tree(leaf("")));
    assert_eq!(Tree::from_string("   "), tree(leaf("")));
    assert_eq!(Tree::from_string("()"), tree(leaf("")));
    assert_eq!(Tree::from_string("("), tree(leaf("")));
    assert_eq!(Tree::from_string("((a b))"), tree(node("a", vec![leaf("b")])));
    assert_eq!(Tree::from_string("(a (b c"), tree(node("a", vec![node("b", vec![leaf("c")])])));
    assert_eq!(Tree::from_string("a) b"), tree(leaf("a")));
    assert_eq!(Tree::from_string("a b"), tree(node("a", vec![leaf("b")])));
}

#[test]
fn equality_is_structural() {
    assert_eq!(leaf("a"), leaf("a"));
    assert_ne!(leaf("a"), leaf("b"));
    assert_ne!(leaf("a"), node("a", vec![leaf("b")]));
    assert_ne!(
        node("a", vec![leaf("b"), leaf("c")]),
        node("a", vec![leaf("b")])
    );
    assert_ne!(
        node("a", vec![node("b", vec![leaf("c")])]),
        node("a", vec![node("b", vec![leaf("d")])])
    );
    assert!(tree(leaf("a")).equals(&tree(leaf("a"))));
    assert!(!leaf("a").equals(&leaf("b")));
}

#[test]
fn cursor_reads_character_by_character() {
    let mut cur = Cursor::new("é (");
    assert_eq!(cur.peek(), Some('é'));
    assert!(cur.at_label_char());
    assert!(!cur.at_space());
    cur.advance();
    assert_eq!(cur.peek(), Some(' '));
    assert!(cur.at_space());
    cur.skip_whitespace();
    assert_eq!(cur.peek(), Some('('));
    assert!(!cur.at_label_char());
    cur.advance();
    assert_eq!(cur.peek(), None);
    assert!(!cur.at_space());
}

#[test]
fn next_token_takes_a_parenthesis_alone() {
    let mut cur = Cursor::new("(  (ab");
    assert_eq!(Node::next_token(&mut cur), "(");
    assert_eq!(cur.peek(), Some('('));
    assert_eq!(Node::next_token(&mut cur), "(");
    assert_eq!(cur.peek(), Some('a'));
    let mut cur = Cursor::new(")) ");
    assert_eq!(Node::next_token(&mut cur), ")");
    assert_eq!(Node::next_token(&mut cur), ")");
    assert_eq!(cur.peek(), None);
}

#[test]
fn next_token_takes_a_whole_label() {
    let mut cur = Cursor::new("abc  def)x");
    assert_eq!(Node::next_token(&mut cur), "abc");
    assert_eq!(cur.peek(), Some('d'));
    assert_eq!(Node::next_token(&mut cur), "def");
    assert_eq!(cur.peek(), Some(')'));
    assert_eq!(Node::next_token(&mut cur), ")");
    assert_eq!(Node::next_token(&mut cur), "x");
    assert_eq!(cur.peek(), None);
}

#[test]
fn next_token_at_whitespace_is_empty() {
    let mut cur = Cursor::new(" \t a");
    assert_eq!(Node::next_token(&mut cur), "");
    assert_eq!(cur.peek(), Some('a'));
}

#[test]
fn from_chars_stops_behind_its_node() {
    let mut cur = Cursor::new("(a b) (c d)");
    assert_eq!(Node::from_chars(&mut cur), node("a", vec![leaf("b")]));
    assert_eq!(cur.peek(), Some('('));
    assert_eq!(Node::from_chars(&mut cur), node("c", vec![leaf("d")]));
    assert_eq!(cur.peek(), None);
    assert_eq!(Node::from_chars(&mut cur), leaf(""));
}

#[test]
fn line_counts_are_compared() {
    assert_eq!(compare_line_counts(0, 0), LineCount::Equal);
    assert_eq!(compare_line_counts(3, 3), LineCount::Equal);
    assert_eq!(compare_line_counts(1, 2), LineCount::ExcessTest);
    assert_eq!(compare_line_counts(2, 1), LineCount::ExcessGold);
}
