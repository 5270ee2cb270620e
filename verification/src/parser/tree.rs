//! The concrete syntax tree the language modules read, held as plain data:
//! every node in preorder, with its kind, the field name it fills in its
//! parent, its text, its start position and the indices of its children.
//! It is built from a tree-sitter parse of the source.

use vstd::prelude::*;

use crate::ir::types::SourceLoc;
use crate::text::{chars_of, owned};

verus! {

/// One node of a syntax tree.
#[derive(Debug)]
pub struct SyntaxNode {
    /// Grammar kind (`function_declaration`, `identifier`, `{`, ...).
    pub kind: String,
    /// The field this node fills in its parent (`name`, `body`, ...).
    pub field: Option<String>,
    /// The source text the node spans.
    pub text: String,
    /// 0-based start row.
    pub row: usize,
    /// 0-based start column, in bytes.
    pub col: usize,
    /// Whether the node is named in the grammar (not punctuation).
    pub named: bool,
    /// Indices of the children, in source order.
    pub children: Vec<usize>,
}

/// A syntax tree: its nodes in preorder, the root first.
#[derive(Debug)]
pub struct SyntaxTree {
    pub nodes: Vec<SyntaxNode>,
}

/// Every child comes after its parent and inside the list.
pub open spec fn nodes_wf(nodes: Seq<SyntaxNode>) -> bool {
    forall|i: int, k: int|
        0 <= i < nodes.len() && 0 <= k < nodes[i].children@.len() ==> i < #[trigger] nodes[i].children@[k]
            < nodes.len()
}

impl SyntaxTree {
    /// Every child comes after its parent and inside the tree.
    pub open spec fn wf(&self) -> bool {
        nodes_wf(self.nodes@)
    }

    pub open spec fn len(&self) -> nat {
        self.nodes@.len()
    }

    pub open spec fn kind(&self, i: int) -> Seq<char> {
        self.nodes@[i].kind@
    }

    pub open spec fn text(&self, i: int) -> Seq<char> {
        self.nodes@[i].text@
    }

    pub open spec fn children(&self, i: int) -> Seq<usize> {
        self.nodes@[i].children@
    }

    pub open spec fn field(&self, i: int) -> Option<Seq<char>> {
        match self.nodes@[i].field {
            Some(f) => Some(f@),
            None => None,
        }
    }
}

/// The first of the nodes `cs` whose kind is `k`.
pub open spec fn first_of_kind(t: SyntaxTree, cs: Seq<usize>, k: Seq<char>) -> Option<usize>
    decreases cs.len(),
{
    if cs.len() == 0 {
        None
    } else if t.kind(cs[0] as int) == k {
        Some(cs[0])
    } else {
        first_of_kind(t, cs.drop_first(), k)
    }
}

/// The first of the nodes `cs` that fills the field `f`.
pub open spec fn first_in_field(t: SyntaxTree, cs: Seq<usize>, f: Seq<char>) -> Option<usize>
    decreases cs.len(),
{
    if cs.len() == 0 {
        None
    } else if t.field(cs[0] as int) == Some(f) {
        Some(cs[0])
    } else {
        first_in_field(t, cs.drop_first(), f)
    }
}

/// The first child of `n` whose kind is `k`.
pub open spec fn child_of_kind(t: SyntaxTree, n: int, k: Seq<char>) -> Option<usize> {
    first_of_kind(t, t.children(n), k)
}

/// The child of `n` in the field `f`.
pub open spec fn child_in_field(t: SyntaxTree, n: int, f: Seq<char>) -> Option<usize> {
    first_in_field(t, t.children(n), f)
}

pub proof fn lemma_first_of_kind_in(t: SyntaxTree, cs: Seq<usize>, k: Seq<char>)
    ensures
        first_of_kind(t, cs, k) matches Some(c) ==> cs.contains(c) && t.kind(c as int) == k,
    decreases cs.len(),
{
    if cs.len() > 0 {
        lemma_first_of_kind_in(t, cs.drop_first(), k);
        if let Some(c) = first_of_kind(t, cs.drop_first(), k) {
            if t.kind(cs[0] as int) != k {
                let j = choose|j: int| 0 <= j < cs.drop_first().len() && cs.drop_first()[j] == c;
                assert(cs[j + 1] == c);
            }
        }
        if t.kind(cs[0] as int) == k {
            assert(cs[0] == cs[0]);
            assert(cs.contains(cs[0]));
        }
    }
}

pub proof fn lemma_first_in_field_in(t: SyntaxTree, cs: Seq<usize>, f: Seq<char>)
    ensures
        first_in_field(t, cs, f) matches Some(c) ==> cs.contains(c) && t.field(c as int) == Some(f),
    decreases cs.len(),
{
    if cs.len() > 0 {
        lemma_first_in_field_in(t, cs.drop_first(), f);
        if let Some(c) = first_in_field(t, cs.drop_first(), f) {
            if t.field(cs[0] as int) != Some(f) {
                let j = choose|j: int| 0 <= j < cs.drop_first().len() && cs.drop_first()[j] == c;
                assert(cs[j + 1] == c);
            }
        }
        if t.field(cs[0] as int) == Some(f) {
            assert(cs.contains(cs[0]));
        }
    }
}

/// Whether the kind of node `n` is `k`.
pub fn kind_is(t: &SyntaxTree, n: usize, k: &str) -> (r: bool)
    requires
        n < t.len(),
    ensures
        r == (t.kind(n as int) == k@),
{
    crate::text::str_eq(t.nodes[n].kind.as_str(), k)
}

/// The first child of `n` whose kind is `k`.
pub fn find_child_by_kind(t: &SyntaxTree, n: usize, k: &str) -> (r: Option<usize>)
    requires
        t.wf(),
        n < t.len(),
    ensures
        r == child_of_kind(*t, n as int, k@),
        r matches Some(c) ==> n < c < t.len() && t.kind(c as int) == k@,
{
    let cs = &t.nodes[n].children;
    let ghost all = cs@;
    let mut i: usize = 0;
    assert(all.skip(0) =~= all);
    while i < cs.len()
        invariant
            i <= cs.len(),
            all == cs@,
            all == t.children(n as int),
            n < t.len(),
            t.wf(),
            first_of_kind(*t, all, k@) == first_of_kind(*t, all.skip(i as int), k@),
        decreases cs.len() - i,
    {
        assert(all.skip(i as int)[0] == all[i as int]);
        assert(all.skip(i as int).drop_first() =~= all.skip(i + 1));
        let c = cs[i];
        assert(t.nodes@[n as int].children@[i as int] == c);
        if kind_is(t, c, k) {
            proof {
                lemma_first_of_kind_in(*t, all, k@);
            }
            return Some(c);
        }
        i += 1;
    }
    assert(all.skip(i as int) =~= Seq::<usize>::empty());
    None
}

/// The child of `n` that fills the field `f`.
pub fn child_by_field_name(t: &SyntaxTree, n: usize, f: &str) -> (r: Option<usize>)
    requires
        t.wf(),
        n < t.len(),
    ensures
        r == child_in_field(*t, n as int, f@),
        r matches Some(c) ==> n < c < t.len() && t.field(c as int) == Some(f@),
{
    let cs = &t.nodes[n].children;
    let ghost all = cs@;
    let mut i: usize = 0;
    assert(all.skip(0) =~= all);
    while i < cs.len()
        invariant
            i <= cs.len(),
            all == cs@,
            all == t.children(n as int),
            n < t.len(),
            t.wf(),
            first_in_field(*t, all, f@) == first_in_field(*t, all.skip(i as int), f@),
        decreases cs.len() - i,
    {
        assert(all.skip(i as int)[0] == all[i as int]);
        assert(all.skip(i as int).drop_first() =~= all.skip(i + 1));
        let c = cs[i];
        assert(t.nodes@[n as int].children@[i as int] == c);
        let hit = match &t.nodes[c].field {
            Some(name) => crate::text::str_eq(name.as_str(), f),
            None => false,
        };
        if hit {
            proof {
                lemma_first_in_field_in(*t, all, f@);
            }
            return Some(c);
        }
        i += 1;
    }
    assert(all.skip(i as int) =~= Seq::<usize>::empty());
    None
}

/// An owned copy of the text of node `n`.
pub fn node_text(t: &SyntaxTree, n: usize) -> (r: String)
    requires
        n < t.len(),
    ensures
        r@ == t.text(n as int),
{
    owned(t.nodes[n].text.as_str())
}

/// A 0-based position made 1-based.
pub open spec fn one_based(x: usize) -> usize {
    if x < usize::MAX {
        (x + 1) as usize
    } else {
        x
    }
}

/// `l` is where node `n` starts in the file `path`.
pub open spec fn is_loc_of(l: SourceLoc, t: SyntaxTree, n: int, path: Seq<char>) -> bool {
    &&& l.file@ == path
    &&& l.line == one_based(t.nodes@[n].row)
    &&& l.col == one_based(t.nodes@[n].col)
}

/// Where node `n` starts, 1-based, in the file `path`.
pub fn loc_of(t: &SyntaxTree, n: usize, path: &str) -> (r: SourceLoc)
    requires
        n < t.len(),
    ensures
        is_loc_of(r, *t, n as int, path@),
{
    let row = t.nodes[n].row;
    let col = t.nodes[n].col;
    SourceLoc {
        file: owned(path),
        line: if row < usize::MAX { row + 1 } else { row },
        col: if col < usize::MAX { col + 1 } else { col },
    }
}

/// The texts of the nodes `cs` whose kind is `k`, in order.
pub open spec fn texts_of_kind(t: SyntaxTree, cs: Seq<usize>, k: Seq<char>) -> Seq<Seq<char>>
    decreases cs.len(),
{
    if cs.len() == 0 {
        seq![]
    } else {
        let r = texts_of_kind(t, cs.drop_last(), k);
        if t.kind(cs.last() as int) == k {
            r.push(t.text(cs.last() as int))
        } else {
            r
        }
    }
}

/// Every child of `n` is a later node of the tree.
pub proof fn lemma_children_after(t: SyntaxTree, n: int)
    requires
        t.wf(),
        0 <= n < t.len(),
    ensures
        forall|k: int| 0 <= k < t.children(n).len() ==> n < #[trigger] t.children(n)[k] < t.len(),
{
    assert forall|k: int| 0 <= k < t.children(n).len() implies n < #[trigger] t.children(n)[k] < t.len() by {
        assert(t.nodes@[n].children@[k] == t.children(n)[k]);
    }
}

} // verus!
