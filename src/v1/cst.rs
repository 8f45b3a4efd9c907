use vstd::prelude::*;

verus! {

/// A position in a source text: zero-based row and column (in bytes).
#[derive(Debug, Copy, Clone, PartialEq, Eq, Structural)]
pub struct Point {
    pub row: usize,
    pub column: usize,
}

/// A node of the concrete syntax tree of an s-expression source, held as
/// plain values: its kind, its text, where it stands, and its children.
#[derive(Debug)]
pub struct CstNode {
    pub kind: String,
    pub text: String,
    pub start_byte: usize,
    pub end_byte: usize,
    pub start: Point,
    pub is_extra: bool,
    pub children: Vec<CstNode>,
}

/// tree_sitter::Tree, a parsed syntax tree, carried through opaquely.
#[verifier::external_type_specification]
#[verifier::external_body]
pub struct ExTree(tree_sitter::Tree);

/// tree_sitter::Node, a node of a parsed tree, carried through opaquely.
#[verifier::external_type_specification]
#[verifier::external_body]
pub struct ExNode<'tree>(tree_sitter::Node<'tree>);

/// The number of nodes in the subtree rooted at a node, itself included.
pub uninterp spec fn subtree_size(n: tree_sitter::Node<'_>) -> nat;

/// The syntax tree that tree_sitter's Clojure grammar gives a text, copied
/// into `CstNode`s; `None` where no tree is given.
pub uninterp spec fn cst_of(s: Seq<char>) -> Option<CstNode>;

/// Relies on tree_sitter::Parser (new, set_language, parse) with the Clojure
/// grammar of tree_sitter_clojure, and Tree::root_node: the tree depends on
/// the text alone. The tree is converted, node for node, by `copy_node`.
#[verifier::external_body]
fn parse_cst(source: &str) -> (r: Option<CstNode>)
    ensures
        r == cst_of(source@),
{
    let mut parser = tree_sitter::Parser::new();
    parser.set_language(&tree_sitter_clojure::LANGUAGE.into()).ok()?;
    let tree = parser.parse(source, None)?;
    Some(copy_node(&tree.root_node(), source))
}

/// Relies on tree_sitter::Tree::root_node: the tree's root; nothing more is
/// claimed of it.
pub assume_specification[ tree_sitter::Tree::root_node ](t: &tree_sitter::Tree) -> tree_sitter::Node<'_>;

/// Relies on tree_sitter::Node::kind: the name of the node's grammar symbol;
/// nothing more is claimed of it.
pub assume_specification<'tree>[ tree_sitter::Node::<'tree>::kind ](n: &tree_sitter::Node<'tree>) -> &'static str;

/// Relies on tree_sitter::Node::is_extra: whether the grammar marks the node
/// as an extra; nothing more is claimed of it.
pub assume_specification<'tree>[ tree_sitter::Node::<'tree>::is_extra ](n: &tree_sitter::Node<'tree>) -> bool;

/// Relies on tree_sitter::Node::start_byte: where the node starts; nothing
/// more is claimed of it.
pub assume_specification<'tree>[ tree_sitter::Node::<'tree>::start_byte ](n: &tree_sitter::Node<'tree>) -> usize;

/// Relies on tree_sitter::Node::end_byte: where the node ends; nothing more
/// is claimed of it.
pub assume_specification<'tree>[ tree_sitter::Node::<'tree>::end_byte ](n: &tree_sitter::Node<'tree>) -> usize;

/// Relies on tree_sitter::Node::child_count: how many children the node has;
/// nothing more is claimed of it.
pub assume_specification<'tree>[ tree_sitter::Node::<'tree>::child_count ](n: &tree_sitter::Node<'tree>) -> usize;

/// Relies on tree_sitter::Node::descendant_count: the number of descendants,
/// one for the node itself included.
pub assume_specification<'tree>[ tree_sitter::Node::<'tree>::descendant_count ](n: &tree_sitter::Node<'tree>) -> (r: usize)
    ensures
        r == subtree_size(*n),
;

/// Relies on tree_sitter::Node::child: a child is one of the node's
/// descendants, so its subtree is smaller.
pub assume_specification<'tree>[ tree_sitter::Node::<'tree>::child ](n: &tree_sitter::Node<'tree>, i: usize) -> (r: Option<tree_sitter::Node<'tree>>)
    ensures
        r matches Some(c) ==> subtree_size(c) < subtree_size(*n),
;

/// Relies on tree_sitter::Node::start_position: the row and column where the
/// node starts.
#[verifier::external_body]
fn start_point(n: &tree_sitter::Node<'_>) -> (r: Point)
{
    let p = n.start_position();
    Point { row: p.row, column: p.column }
}

/// Relies on tree_sitter::Node::start_byte and end_byte: the text between
/// them in `source`; empty where that range is not a range of `source`.
#[verifier::external_body]
fn node_text(n: &tree_sitter::Node<'_>, source: &str) -> (r: String)
{
    source.get(n.start_byte()..n.end_byte()).unwrap_or("").to_string()
}

/// Copies a node of the parser's tree, and its whole subtree, into a `CstNode`.
fn copy_node(n: &tree_sitter::Node<'_>, source: &str) -> (r: CstNode)
    decreases subtree_size(*n),
{
    let count = n.child_count();
    let mut children: Vec<CstNode> = Vec::new();
    let mut i: usize = 0;
    while i < count
        decreases count - i,
    {
        if let Some(c) = n.child(i) {
            children.push(copy_node(&c, source));
        }
        i = i + 1;
    }
    CstNode {
        kind: String::from_str(n.kind()),
        text: node_text(n, source),
        start_byte: n.start_byte(),
        end_byte: n.end_byte(),
        start: start_point(n),
        is_extra: n.is_extra(),
        children,
    }
}

/// Parses a source text into its concrete syntax tree, or `None` where the
/// parser gives no tree.
pub fn parse_source(source: &str) -> (r: Option<CstNode>)
    ensures
        r == cst_of(source@),
{
    parse_cst(source)
}

pub open spec fn is_punctuation(kind: Seq<char>) -> bool {
    kind == "("@ || kind == ")"@ || kind == "["@ || kind == "]"@
}

/// A documentation comment: a comment whose text starts with `;;`.
pub open spec fn is_doc_comment(n: CstNode) -> bool {
    &&& n.kind@ == "comment"@
    &&& n.text@.len() >= 2
    &&& n.text@[0] == ';'
    &&& n.text@[1] == ';'
}

/// A node that carries meaning: not an extra, a bracket or a comment.
pub open spec fn spec_not_extra(n: CstNode) -> bool {
    !n.is_extra && !is_punctuation(n.kind@) && n.kind@ != "comment"@
}

/// A node that carries meaning, documentation comments included.
pub open spec fn spec_not_extra_allow_docs(n: CstNode) -> bool {
    spec_not_extra(n) || is_doc_comment(n)
}

/// The nodes of `s` that carry meaning, in order.
pub open spec fn meaningful(s: Seq<CstNode>) -> Seq<CstNode>
    decreases s.len(),
{
    if s.len() == 0 {
        s
    } else if spec_not_extra(s.last()) {
        meaningful(s.drop_last()).push(s.last())
    } else {
        meaningful(s.drop_last())
    }
}

/// The nodes of `s` that carry meaning or documentation, in order.
pub open spec fn meaningful_with_docs(s: Seq<CstNode>) -> Seq<CstNode>
    decreases s.len(),
{
    if s.len() == 0 {
        s
    } else if spec_not_extra_allow_docs(s.last()) {
        meaningful_with_docs(s.drop_last()).push(s.last())
    } else {
        meaningful_with_docs(s.drop_last())
    }
}

/// The nodes that a sequence of references points to.
pub open spec fn nodes(s: Seq<&CstNode>) -> Seq<CstNode> {
    Seq::new(s.len(), |i: int| *s[i])
}

/// The node kinds that the evaluator tells apart are distinct texts.
pub proof fn lemma_kinds_distinct()
    ensures
        "comment"@ != "kwd_lit"@,
        "comment"@ != "sym_lit"@,
        "comment"@ != "list_lit"@,
        "kwd_lit"@ != "sym_lit"@,
        "kwd_lit"@ != "list_lit"@,
        "sym_lit"@ != "list_lit"@,
        "meta_lit"@ != "sym_name"@,
        "str_lit"@ != "num_lit"@,
        "vec_lit"@ != "list_lit"@,
{
    reveal_strlit("comment");
    reveal_strlit("kwd_lit");
    reveal_strlit("sym_lit");
    reveal_strlit("list_lit");
    reveal_strlit("meta_lit");
    reveal_strlit("sym_name");
    reveal_strlit("str_lit");
    reveal_strlit("num_lit");
    reveal_strlit("vec_lit");
    assert("comment"@[0] != "kwd_lit"@[0]);
    assert("comment"@[0] != "sym_lit"@[0]);
    assert("comment"@[0] != "list_lit"@[0]);
    assert("kwd_lit"@[0] != "sym_lit"@[0]);
    assert("kwd_lit"@[0] != "list_lit"@[0]);
    assert("sym_lit"@[0] != "list_lit"@[0]);
    assert("meta_lit"@[0] != "sym_name"@[0]);
    assert("str_lit"@[0] != "num_lit"@[0]);
    assert("vec_lit"@[0] != "list_lit"@[0]);
}

/// Whether a text equals a literal.
pub fn text_is(s: &String, lit: &str) -> (r: bool)
    ensures
        r == (s@ == lit@),
{
    *s == String::from_str(lit)
}

fn kind_is_punctuation(kind: &String) -> (r: bool)
    ensures
        r == is_punctuation(kind@),
{
    text_is(kind, "(") || text_is(kind, ")") || text_is(kind, "[") || text_is(kind, "]")
}

/// Whether a node carries meaning (not an extra, a bracket or a comment).
pub fn is_not_extra(node: &CstNode) -> (r: bool)
    ensures
        r == spec_not_extra(*node),
{
    !node.is_extra && !kind_is_punctuation(&node.kind) && !text_is(&node.kind, "comment")
}

fn is_doc(node: &CstNode) -> (r: bool)
    ensures
        r == is_doc_comment(*node),
{
    if !text_is(&node.kind, "comment") {
        return false;
    }
    let t = node.text.as_str();
    t.unicode_len() >= 2 && t.get_char(0) == ';' && t.get_char(1) == ';'
}

/// Whether a node carries meaning or is a documentation comment.
pub fn is_not_extra_allow_docs(node: &CstNode) -> (r: bool)
    ensures
        r == spec_not_extra_allow_docs(*node),
{
    is_not_extra(node) || is_doc(node)
}

/// The meaningful children of a node, in order.
pub fn filter_not_extra<'a>(node: &'a CstNode) -> (r: Vec<&'a CstNode>)
    ensures
        nodes(r@) == meaningful(node.children@),
{
    let mut out: Vec<&'a CstNode> = Vec::new();
    assert(nodes(out@) == Seq::<CstNode>::empty());
    let mut i: usize = 0;
    while i < node.children.len()
        invariant
            i <= node.children@.len(),
            nodes(out@) == meaningful(node.children@.subrange(0, i as int)),
        decreases node.children@.len() - i,
    {
        let c = &node.children[i];
        proof {
            let pre = node.children@.subrange(0, i + 1);
            assert(pre.drop_last() == node.children@.subrange(0, i as int));
            assert(pre.last() == node.children@[i as int]);
        }
        if is_not_extra(c) {
            let ghost before = out@;
            out.push(c);
            assert(nodes(out@) == nodes(before).push(*c));
        }
        i = i + 1;
    }
    assert(node.children@.subrange(0, node.children@.len() as int) == node.children@);
    out
}

/// The children of a node that carry meaning or documentation, in order.
pub fn filter_not_extra_allow_docs<'a>(node: &'a CstNode) -> (r: Vec<&'a CstNode>)
    ensures
        nodes(r@) == meaningful_with_docs(node.children@),
{
    let mut out: Vec<&'a CstNode> = Vec::new();
    assert(nodes(out@) == Seq::<CstNode>::empty());
    let mut i: usize = 0;
    while i < node.children.len()
        invariant
            i <= node.children@.len(),
            nodes(out@) == meaningful_with_docs(node.children@.subrange(0, i as int)),
        decreases node.children@.len() - i,
    {
        let c = &node.children[i];
        proof {
            let pre = node.children@.subrange(0, i + 1);
            assert(pre.drop_last() == node.children@.subrange(0, i as int));
            assert(pre.last() == node.children@[i as int]);
        }
        if is_not_extra_allow_docs(c) {
            let ghost before = out@;
            out.push(c);
            assert(nodes(out@) == nodes(before).push(*c));
        }
        i = i + 1;
    }
    assert(node.children@.subrange(0, node.children@.len() as int) == node.children@);
    out
}

/// The first child of a node that carries meaning or documentation.
pub fn first_not_extra_allow_docs<'a>(node: &'a CstNode) -> (r: Option<&'a CstNode>)
    ensures
        match r {
            Some(n) => meaningful_with_docs(node.children@).len() > 0 && *n == meaningful_with_docs(node.children@)[0],
            None => meaningful_with_docs(node.children@).len() == 0,
        },
{
    let all = filter_not_extra_allow_docs(node);
    if all.len() == 0 {
        None
    } else {
        assert(*all@[0] == nodes(all@)[0]);
        Some(all[0])
    }
}

/// The text of a keyword without its leading colon.
pub open spec fn key_text(n: CstNode) -> Seq<char> {
    if n.text@.len() == 0 { n.text@ } else { n.text@.subrange(1, n.text@.len() as int) }
}

/// The text of a string literal without its quotes.
pub open spec fn string_text(n: CstNode) -> Seq<char> {
    if n.text@.len() < 2 { Seq::empty() } else { n.text@.subrange(1, n.text@.len() - 1) }
}

/// The text of a keyword node without its leading colon.
pub fn key<'a>(node: &'a CstNode) -> (r: &'a str)
    ensures
        r@ == key_text(*node),
{
    let t = node.text.as_str();
    let n = t.unicode_len();
    if n == 0 {
        t
    } else {
        t.substring_char(1, n)
    }
}

/// The text of a string literal node without its quotes.
pub fn string<'a>(node: &'a CstNode) -> (r: &'a str)
    ensures
        r@ == string_text(*node),
{
    let t = node.text.as_str();
    let n = t.unicode_len();
    if n < 2 {
        t.substring_char(0, 0)
    } else {
        t.substring_char(1, n - 1)
    }
}

} // verus!
