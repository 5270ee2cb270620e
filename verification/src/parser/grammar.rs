//! Building a [`SyntaxTree`] from a tree-sitter parse. The grammars and the
//! parser are tree-sitter's; what is read from its tree (kinds, field names,
//! positions, byte ranges, depths) comes through the wrappers below, and the
//! tree is assembled from them by verified code.

use vstd::prelude::*;

use crate::parser::tree::{nodes_wf, SyntaxNode, SyntaxTree};

verus! {

/// The grammars the parsers use.
#[derive(Debug, Clone, Copy, PartialEq, Eq, Structural)]
pub enum Grammar {
    Rust,
    Java,
    Go,
    TypeScript,
    Tsx,
    Python,
}

#[verifier::external_type_specification]
#[verifier::external_body]
pub struct ExParser(tree_sitter::Parser);

#[verifier::external_type_specification]
#[verifier::external_body]
pub struct ExTree(tree_sitter::Tree);

#[verifier::external_type_specification]
#[verifier::external_body]
pub struct ExLanguage(tree_sitter::Language);

#[verifier::external_type_specification]
#[verifier::external_body]
pub struct ExLanguageError(tree_sitter::LanguageError);

#[verifier::external_type_specification]
#[verifier::external_body]
pub struct ExNode<'a>(tree_sitter::Node<'a>);

#[verifier::external_type_specification]
#[verifier::external_body]
pub struct ExTreeCursor<'a>(tree_sitter::TreeCursor<'a>);

/// The number each grammar goes by in the names below.
pub open spec fn grammar_id(g: Grammar) -> u8 {
    match g {
        Grammar::Rust => 0,
        Grammar::Java => 1,
        Grammar::Go => 2,
        Grammar::TypeScript => 3,
        Grammar::Tsx => 4,
        Grammar::Python => 5,
    }
}

/// What tree-sitter tells of one node of a parse, in preorder: kind, the
/// field it fills in its parent, start row, start column, whether it is
/// named, its depth below the root, start byte and end byte.
pub type TsNodeInfo = (Seq<char>, Option<Seq<char>>, usize, usize, bool, u32, usize, usize);

/// Whether tree-sitter's parser accepts the grammar numbered `grammar`
/// (`Parser::set_language` succeeds): it depends on the grammar's ABI version
/// and on the library, nothing else.
pub uninterp spec fn grammar_loads(grammar: u8) -> bool;

/// The nodes, in preorder, of the tree that `Parser::parse` builds for the
/// text `source` with the grammar numbered `grammar`: a function of the two.
pub uninterp spec fn ts_tree(grammar: u8, source: Seq<char>) -> Seq<TsNodeInfo>;

/// A tree-sitter `Language`, with the number of the grammar it is.
pub struct TsLanguage {
    l: tree_sitter::Language,
    id: Ghost<u8>,
}

impl TsLanguage {
    pub closed spec fn grammar(&self) -> u8 {
        self.id@
    }
}

/// A tree-sitter `Parser`, with the grammar it has been given, if any.
pub struct TsParser {
    p: tree_sitter::Parser,
    lang: Ghost<Option<u8>>,
}

impl TsParser {
    pub closed spec fn grammar(&self) -> Option<u8> {
        self.lang@
    }
}

/// A tree-sitter `Tree`, with the grammar and text it was parsed from.
pub struct TsTree {
    t: tree_sitter::Tree,
    key: Ghost<(u8, Seq<char>)>,
}

impl TsTree {
    pub closed spec fn key(&self) -> (u8, Seq<char>) {
        self.key@
    }
}

/// A tree-sitter `Node` of a parse, with the parse and its preorder index.
pub struct TsNode<'a> {
    n: tree_sitter::Node<'a>,
    key: Ghost<(u8, Seq<char>)>,
    at: Ghost<int>,
}

impl<'a> TsNode<'a> {
    pub closed spec fn key(&self) -> (u8, Seq<char>) {
        self.key@
    }

    pub closed spec fn at(&self) -> int {
        self.at@
    }

    /// What tree-sitter tells of this node.
    pub open spec fn info(&self) -> TsNodeInfo {
        ts_tree(self.key().0, self.key().1)[self.at()]
    }

    pub open spec fn valid(&self) -> bool {
        0 <= self.at() < ts_tree(self.key().0, self.key().1).len()
    }
}

/// A tree-sitter `TreeCursor` rooted at the root of a parse, with the
/// preorder index of the node it is on.
pub struct TsCursor<'a> {
    c: tree_sitter::TreeCursor<'a>,
    key: Ghost<(u8, Seq<char>)>,
    at: Ghost<int>,
}

impl<'a> TsCursor<'a> {
    pub closed spec fn key(&self) -> (u8, Seq<char>) {
        self.key@
    }

    pub closed spec fn at(&self) -> int {
        self.at@
    }

    pub open spec fn info(&self) -> TsNodeInfo {
        ts_tree(self.key().0, self.key().1)[self.at()]
    }

    pub open spec fn valid(&self) -> bool {
        0 <= self.at() < ts_tree(self.key().0, self.key().1).len()
    }
}

/// `tree_sitter_rust::LANGUAGE`, as a tree-sitter `Language`.
#[verifier::external_body]
fn rust_language() -> (r: TsLanguage)
    ensures
        r.grammar() == grammar_id(Grammar::Rust),
{
    TsLanguage { l: tree_sitter_rust::LANGUAGE.into(), id: Ghost(arbitrary()) }
}

/// `tree_sitter_java::LANGUAGE`, as a tree-sitter `Language`.
#[verifier::external_body]
fn java_language() -> (r: TsLanguage)
    ensures
        r.grammar() == grammar_id(Grammar::Java),
{
    TsLanguage { l: tree_sitter_java::LANGUAGE.into(), id: Ghost(arbitrary()) }
}

/// `tree_sitter_go::LANGUAGE`, as a tree-sitter `Language`.
#[verifier::external_body]
fn go_language() -> (r: TsLanguage)
    ensures
        r.grammar() == grammar_id(Grammar::Go),
{
    TsLanguage { l: tree_sitter_go::LANGUAGE.into(), id: Ghost(arbitrary()) }
}

/// `tree_sitter_typescript::LANGUAGE_TYPESCRIPT`, as a tree-sitter `Language`.
#[verifier::external_body]
fn typescript_language() -> (r: TsLanguage)
    ensures
        r.grammar() == grammar_id(Grammar::TypeScript),
{
    TsLanguage { l: tree_sitter_typescript::LANGUAGE_TYPESCRIPT.into(), id: Ghost(arbitrary()) }
}

/// `tree_sitter_typescript::LANGUAGE_TSX`, as a tree-sitter `Language`.
#[verifier::external_body]
fn tsx_language() -> (r: TsLanguage)
    ensures
        r.grammar() == grammar_id(Grammar::Tsx),
{
    TsLanguage { l: tree_sitter_typescript::LANGUAGE_TSX.into(), id: Ghost(arbitrary()) }
}

/// `tree_sitter_python::LANGUAGE`, as a tree-sitter `Language`.
#[verifier::external_body]
fn python_language() -> (r: TsLanguage)
    ensures
        r.grammar() == grammar_id(Grammar::Python),
{
    TsLanguage { l: tree_sitter_python::LANGUAGE.into(), id: Ghost(arbitrary()) }
}

/// `tree_sitter::Parser::new`: a parser with no language set.
#[verifier::external_body]
fn new_parser() -> (r: TsParser)
    ensures
        r.grammar() is None,
{
    TsParser { p: tree_sitter::Parser::new(), lang: Ghost(arbitrary()) }
}

/// `tree_sitter::Parser::set_language`: succeeds exactly when the grammar
/// loads (its ABI version is one the library supports and it is
/// parseable), and then the parser holds it; on failure the parser is left
/// as it was.
#[verifier::external_body]
fn set_language(p: &mut TsParser, lang: &TsLanguage) -> (r: Result<(), tree_sitter::LanguageError>)
    ensures
        r is Ok <==> grammar_loads(lang.grammar()),
        r is Ok ==> final(p).grammar() == Some(lang.grammar()),
        r is Err ==> final(p).grammar() == old(p).grammar(),
{
    p.p.set_language(&lang.l)
}

/// The message of a `tree_sitter::LanguageError` (its `Display`).
#[verifier::external_body]
fn language_error_message(e: &tree_sitter::LanguageError) -> String {
    e.to_string()
}

/// `tree_sitter::Parser::parse` of the whole source with no earlier tree: a
/// parser that holds a grammar gives the tree named `ts_tree` of that
/// grammar and the source, which has a root; a parser without one gives
/// `None`.
#[verifier::external_body]
fn parse_source(p: &mut TsParser, source: &str) -> (r: Option<TsTree>)
    ensures
        final(p).grammar() == old(p).grammar(),
        match old(p).grammar() {
            Some(g) => r matches Some(t) && t.key() == (g, source@) && ts_tree(g, source@).len() > 0,
            None => r is None,
        },
{
    match p.p.parse(source, None) {
        Some(t) => Some(TsTree { t, key: Ghost(arbitrary()) }),
        None => None,
    }
}

/// `tree_sitter::Tree::root_node`: the node with preorder index 0.
#[verifier::external_body]
fn root_node<'a>(t: &'a TsTree) -> (r: TsNode<'a>)
    ensures
        r.key() == t.key(),
        r.at() == 0,
{
    TsNode { n: t.t.root_node(), key: Ghost(arbitrary()), at: Ghost(arbitrary()) }
}

/// `tree_sitter::Node::descendant_count` of the root: the number of nodes
/// of the parse.
#[verifier::external_body]
fn descendant_count(n: &TsNode) -> (r: usize)
    requires
        n.at() == 0,
    ensures
        r == ts_tree(n.key().0, n.key().1).len(),
{
    n.n.descendant_count()
}

/// `tree_sitter::Node::walk` of the root: a cursor rooted there, on it.
#[verifier::external_body]
fn walk<'a>(n: &TsNode<'a>) -> (r: TsCursor<'a>)
    requires
        n.at() == 0,
    ensures
        r.key() == n.key(),
        r.at() == 0,
{
    TsCursor { c: n.n.walk(), key: Ghost(arbitrary()), at: Ghost(arbitrary()) }
}

/// `tree_sitter::TreeCursor::goto_descendant`: moves to the `i`-th node of
/// the cursor's root in preorder.
#[verifier::external_body]
fn goto_descendant(c: &mut TsCursor, i: usize)
    requires
        i < ts_tree(old(c).key().0, old(c).key().1).len(),
    ensures
        final(c).key() == old(c).key(),
        final(c).at() == i,
{
    c.c.goto_descendant(i)
}

/// `tree_sitter::TreeCursor::depth`: the depth of the current node below
/// the cursor's root.
#[verifier::external_body]
fn cursor_depth(c: &TsCursor) -> (r: u32)
    requires
        c.valid(),
    ensures
        r == c.info().5,
{
    c.c.depth()
}

/// `tree_sitter::TreeCursor::field_name`: the field the current node fills
/// in its parent.
#[verifier::external_body]
fn cursor_field_name(c: &TsCursor) -> (r: Option<String>)
    requires
        c.valid(),
    ensures
        match r {
            Some(f) => c.info().1 == Some(f@),
            None => c.info().1 is None,
        },
{
    match c.c.field_name() {
        Some(f) => Some(f.to_string()),
        None => None,
    }
}

/// `tree_sitter::TreeCursor::node`: the current node.
#[verifier::external_body]
fn cursor_node<'a>(c: &TsCursor<'a>) -> (r: TsNode<'a>)
    ensures
        r.key() == c.key(),
        r.at() == c.at(),
{
    TsNode { n: c.c.node(), key: Ghost(arbitrary()), at: Ghost(arbitrary()) }
}

/// `tree_sitter::Node::kind`: the grammar kind of a node.
#[verifier::external_body]
fn node_kind(n: &TsNode) -> (r: String)
    requires
        n.valid(),
    ensures
        r@ == n.info().0,
{
    n.n.kind().to_string()
}

/// `tree_sitter::Node::is_named`.
#[verifier::external_body]
fn node_is_named(n: &TsNode) -> (r: bool)
    requires
        n.valid(),
    ensures
        r == n.info().4,
{
    n.n.is_named()
}

/// `tree_sitter::Node::start_position`, as (row, column).
#[verifier::external_body]
fn start_position(n: &TsNode) -> (r: (usize, usize))
    requires
        n.valid(),
    ensures
        r == (n.info().2, n.info().3),
{
    let p = n.n.start_position();
    (p.row, p.column)
}

/// `tree_sitter::Node::start_byte`.
#[verifier::external_body]
fn start_byte(n: &TsNode) -> (r: usize)
    requires
        n.valid(),
    ensures
        r == n.info().6,
{
    n.n.start_byte()
}

/// `tree_sitter::Node::end_byte`.
#[verifier::external_body]
fn end_byte(n: &TsNode) -> (r: usize)
    requires
        n.valid(),
    ensures
        r == n.info().7,
{
    n.n.end_byte()
}

/// `std::str::from_utf8`: the text the bytes encode, `None` when they are
/// not valid UTF-8.
#[verifier::external_body]
fn utf8_decode(b: &[u8]) -> (r: Option<String>)
    ensures
        match r {
            Some(s) => vstd::utf8::valid_utf8(b@) && s@ == vstd::utf8::decode_utf8(b@),
            None => !vstd::utf8::valid_utf8(b@),
        },
{
    match std::str::from_utf8(b) {
        Ok(s) => Some(s.to_string()),
        Err(_) => None,
    }
}

/// The tree-sitter language of a grammar.
fn language_of(g: Grammar) -> (r: TsLanguage)
    ensures
        r.grammar() == grammar_id(g),
{
    match g {
        Grammar::Rust => rust_language(),
        Grammar::Java => java_language(),
        Grammar::Go => go_language(),
        Grammar::TypeScript => typescript_language(),
        Grammar::Tsx => tsx_language(),
        Grammar::Python => python_language(),
    }
}

/// Why no tree could be built.
#[derive(Debug)]
pub enum TreeError {
    /// The grammar could not be loaded into the parser (its message).
    Language(String),
    /// The parser produced no tree.
    NoTree,
}

/// The text of the bytes `start..end` of the source, or the empty text when
/// the range is not inside the source or the bytes are not valid UTF-8.
pub open spec fn span_text(bytes: Seq<u8>, start: int, end: int) -> Seq<char> {
    if 0 <= start <= end <= bytes.len() && vstd::utf8::valid_utf8(bytes.subrange(start, end)) {
        vstd::utf8::decode_utf8(bytes.subrange(start, end))
    } else {
        seq![]
    }
}

/// The text of a byte range of the source.
pub fn text_of_span(bytes: &[u8], start: usize, end: usize) -> (r: String)
    ensures
        r@ == span_text(bytes@, start as int, end as int),
{
    if start <= end && end <= bytes.len() {
        let sub = vstd::slice::slice_subrange(bytes, start, end);
        match utf8_decode(sub) {
            Some(s) => s,
            None => String::new(),
        }
    } else {
        String::new()
    }
}

/// What a node of the syntax tree holds: kind, field, text, row, column,
/// whether it is named, and its children.
pub type NodeV = (Seq<char>, Option<Seq<char>>, Seq<char>, usize, usize, bool, Seq<usize>);

pub open spec fn opt_string_view(o: Option<String>) -> Option<Seq<char>> {
    match o {
        Some(s) => Some(s@),
        None => None,
    }
}

pub open spec fn node_view(n: SyntaxNode) -> NodeV {
    (n.kind@, opt_string_view(n.field), n.text@, n.row, n.col, n.named, n.children@)
}

/// The nodes of a syntax tree, as plain values.
pub open spec fn tree_view(t: SyntaxTree) -> Seq<NodeV> {
    t.nodes@.map_values(|n: SyntaxNode| node_view(n))
}

/// Lay the preorder nodes `ns` of a parse of the text with bytes `bytes`
/// out as syntax-tree nodes: each node becomes a child of the nearest
/// earlier node one level up (kept on a stack of open nodes), and its text
/// is its byte span. The second part is the stack after the last node.
pub open spec fn layout(ns: Seq<TsNodeInfo>, bytes: Seq<u8>) -> (Seq<NodeV>, Seq<usize>)
    decreases ns.len(),
{
    if ns.len() == 0 {
        (seq![], seq![])
    } else {
        let (nodes, stack) = layout(ns.drop_last(), bytes);
        let x = ns.last();
        let idx = (ns.len() - 1) as usize;
        let depth = x.5 as int;
        let (nodes1, stack1) = if depth > 0 && stack.len() > 0 {
            let d = if depth <= stack.len() {
                depth
            } else {
                stack.len() as int
            };
            let st = stack.take(d);
            let q = st[d - 1] as int;
            let pn = nodes[q];
            (nodes.update(q, (pn.0, pn.1, pn.2, pn.3, pn.4, pn.5, pn.6.push(idx))), st)
        } else {
            (nodes, seq![])
        };
        (nodes1.push((x.0, x.1, span_text(bytes, x.6 as int, x.7 as int), x.2, x.3, x.4, seq![])), stack1.push(idx))
    }
}

/// The syntax-tree nodes of the parse of `source` with the grammar numbered
/// `grammar`.
pub open spec fn ts_layout(grammar: u8, source: Seq<char>) -> Seq<NodeV> {
    layout(ts_tree(grammar, source), vstd::utf8::encode_utf8(source)).0
}

proof fn lemma_layout_len(ns: Seq<TsNodeInfo>, bytes: Seq<u8>)
    ensures
        layout(ns, bytes).0.len() == ns.len(),
        forall|k: int| 0 <= k < layout(ns, bytes).1.len() ==> #[trigger] layout(ns, bytes).1[k] < ns.len(),
    decreases ns.len(),
{
    if ns.len() > 0 {
        lemma_layout_len(ns.drop_last(), bytes);
    }
}

/// Parse `source` with the grammar and lay its syntax tree out in preorder.
/// Each node becomes a child of the nearest earlier node one level up.
pub fn build_tree(g: Grammar, source: &str) -> (r: Result<SyntaxTree, TreeError>)
    ensures
        r matches Ok(t) ==> t.wf() && t.len() > 0,
        r is Ok <==> grammar_loads(grammar_id(g)),
        r matches Ok(t) ==> tree_view(t) == ts_layout(grammar_id(g), source@),
{
    let mut parser = new_parser();
    let lang = language_of(g);
    match set_language(&mut parser, &lang) {
        Ok(()) => {},
        Err(e) => {
            return Err(TreeError::Language(language_error_message(&e)));
        },
    }
    let tree = match parse_source(&mut parser, source) {
        Some(t) => t,
        None => {
            return Err(TreeError::NoTree);
        },
    };
    let ghost ns = ts_tree(grammar_id(g), source@);
    let root = root_node(&tree);
    let count = descendant_count(&root);
    let mut cursor = walk(&root);
    let bytes = source.as_bytes();
    let ghost bv = bytes@;
    assert(bv == vstd::utf8::encode_utf8(source@));
    let mut nodes: Vec<SyntaxNode> = Vec::new();
    let mut stack: Vec<usize> = Vec::new();
    proof {
        assert(ns.take(0) =~= Seq::<TsNodeInfo>::empty());
        assert(tree_view(SyntaxTree { nodes }) =~= Seq::<NodeV>::empty());
    }
    let mut i: usize = 0;
    while i < count
        invariant
            i <= count,
            count == ns.len(),
            cursor.key() == (grammar_id(g), source@),
            ns == ts_tree(grammar_id(g), source@),
            bv == bytes@,
            nodes_wf(nodes@),
            nodes@.len() == i,
            forall|k: int| 0 <= k < stack@.len() ==> #[trigger] stack@[k] < nodes@.len(),
            i > 0 ==> nodes@.len() > 0,
            nodes@.map_values(|n: SyntaxNode| node_view(n)) == layout(ns.take(i as int), bv).0,
            stack@ == layout(ns.take(i as int), bv).1,
        decreases count - i,
    {
        proof {
            assert(ns.take(i + 1).drop_last() =~= ns.take(i as int));
            assert(ns.take(i + 1).last() == ns[i as int]);
        }
        goto_descendant(&mut cursor, i);
        let depth = cursor_depth(&cursor) as usize;
        let node = cursor_node(&cursor);
        let kind = node_kind(&node);
        let field = cursor_field_name(&cursor);
        let (row, col) = start_position(&node);
        let named = node_is_named(&node);
        let text = text_of_span(bytes, start_byte(&node), end_byte(&node));
        let idx = nodes.len();
        let ghost before_stack = stack@;
        let ghost nv0 = nodes@.map_values(|n: SyntaxNode| node_view(n));
        if depth > 0 && stack.len() > 0 {
            let d = if depth <= stack.len() {
                depth
            } else {
                stack.len()
            };
            stack.truncate(d);
            assert(stack@ =~= before_stack.take(d as int));
            let p = stack[d - 1];
            let ghost before = nodes@;
            nodes[p].children.push(idx);
            proof {
                assert forall|a: int, k: int|
                    0 <= a < nodes@.len() && 0 <= k < nodes@[a].children@.len() implies a
                        < #[trigger] nodes@[a].children@[k] <= nodes@.len() by {
                    if a != p {
                        assert(nodes@[a] == before[a]);
                    } else if k < before[a].children@.len() {
                        assert(nodes@[a].children@[k] == before[a].children@[k]);
                    }
                }
                let pn = nv0[p as int];
                assert(nodes@.map_values(|n: SyntaxNode| node_view(n)) =~= nv0.update(
                    p as int,
                    (pn.0, pn.1, pn.2, pn.3, pn.4, pn.5, pn.6.push(idx)),
                )) by {
                    assert forall|a: int| 0 <= a < nodes@.len() implies #[trigger] node_view(nodes@[a]) == nv0.update(
                        p as int,
                        (pn.0, pn.1, pn.2, pn.3, pn.4, pn.5, pn.6.push(idx)),
                    )[a] by {
                        if a != p {
                            assert(nodes@[a] == before[a]);
                        }
                    }
                }
            }
        } else {
            stack.clear();
        }
        let ghost mid = nodes@.map_values(|n: SyntaxNode| node_view(n));
        stack.push(idx);
        let ghost before = nodes@;
        let new_node = SyntaxNode { kind, field, text, row, col, named, children: Vec::new() };
        let ghost nnv = node_view(new_node);
        nodes.push(new_node);
        proof {
            assert forall|a: int, k: int|
                0 <= a < nodes@.len() && 0 <= k < nodes@[a].children@.len() implies a
                    < #[trigger] nodes@[a].children@[k] < nodes@.len() by {
                if a < before.len() {
                    assert(nodes@[a] == before[a]);
                }
            }
            assert(nnv.6 =~= Seq::<usize>::empty());
            assert(nodes@.map_values(|n: SyntaxNode| node_view(n)) =~= mid.push(nnv));
            lemma_layout_len(ns.take(i as int), bv);
            assert(nodes@.map_values(|n: SyntaxNode| node_view(n)) =~= layout(ns.take(i + 1), bv).0);
            assert(stack@ =~= layout(ns.take(i + 1), bv).1);
        }
        i += 1;
    }
    if nodes.len() == 0 {
        return Err(TreeError::NoTree);
    }
    let t = SyntaxTree { nodes };
    assert(ns.take(count as int) =~= ns);
    assert(tree_view(t) == ts_layout(grammar_id(g), source@));
    Ok(t)
}

/// The message for a failed parse of the file `path`.
pub open spec fn tree_error_spec(e: TreeError, path: Seq<char>) -> Seq<char> {
    match e {
        TreeError::Language(m) => m@,
        TreeError::NoTree => "tree-sitter failed to parse "@ + path,
    }
}

/// The message for a failed parse of the file `path`.
pub fn tree_error_message(e: TreeError, path: &str) -> (r: String)
    ensures
        r@ == tree_error_spec(e, path@),
{
    match e {
        TreeError::Language(m) => m,
        TreeError::NoTree => crate::text::concat("tree-sitter failed to parse ", path),
    }
}

} // verus!
