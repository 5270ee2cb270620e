//! Where the smartgrep markers can occur in an instruction file, and why
//! putting the block into a file twice changes nothing the second time.

use vstd::prelude::*;

use crate::commands::init::{apply_block_spec, positions, positions_before, trim_end_newlines, END_MARKER, START_MARKER};
use crate::text::{occurs_at, trim};

verus! {

/// A marker opens with its only `<` and closes with its only `>`, and holds
/// no newline.
pub open spec fn marker_shaped(m: Seq<char>) -> bool {
    &&& m.len() >= 2
    &&& m[0] == '<'
    &&& m.last() == '>'
    &&& forall|j: int| 1 <= j < m.len() ==> #[trigger] m[j] != '<'
    &&& forall|j: int| 0 <= j < m.len() - 1 ==> #[trigger] m[j] != '>'
    &&& forall|j: int| 0 <= j < m.len() ==> #[trigger] m[j] != '\n'
}

proof fn lemma_markers_shaped()
    ensures
        marker_shaped(START_MARKER@),
        marker_shaped(END_MARKER@),
        START_MARKER@[15] != END_MARKER@[15],
        START_MARKER@.len() > 15,
        END_MARKER@.len() > 15,
{
    reveal_strlit("<!-- smartgrep:start -->");
    reveal_strlit("<!-- smartgrep:end -->");
}

/// No occurrence of `m` anywhere in `t`.
pub open spec fn absent(t: Seq<char>, m: Seq<char>) -> bool {
    forall|i: int| !#[trigger] occurs_at(t, m, i)
}

/// A block as `init` writes it: it opens with the start marker, closes with
/// the end marker, and holds neither marker anywhere else.
pub open spec fn framed_block(b: Seq<char>) -> bool {
    &&& occurs_at(b, START_MARKER@, 0)
    &&& occurs_at(b, END_MARKER@, b.len() - END_MARKER@.len())
    &&& forall|i: int| i != 0 ==> !#[trigger] occurs_at(b, START_MARKER@, i)
    &&& forall|i: int| i != b.len() - END_MARKER@.len() ==> !#[trigger] occurs_at(b, END_MARKER@, i)
}

proof fn lemma_positions_before_one(t: Seq<char>, m: Seq<char>, n: int, p: int)
    requires
        occurs_at(t, m, p),
        forall|i: int| 0 <= i < n && i != p ==> !#[trigger] occurs_at(t, m, i),
    ensures
        positions_before(t, m, n) == (if p < n { seq![p] } else { Seq::<int>::empty() }),
    decreases n,
{
    if n > 0 {
        lemma_positions_before_one(t, m, n - 1, p);
        if n - 1 == p {
            assert(Seq::<int>::empty().push(p) =~= seq![p]);
        }
    } else {
        assert(positions_before(t, m, n) =~= Seq::<int>::empty());
    }
}

proof fn lemma_occurrence_listed(t: Seq<char>, m: Seq<char>, n: int, i: int)
    requires
        occurs_at(t, m, i),
        i < n,
    ensures
        positions_before(t, m, n).contains(i),
    decreases n,
{
    let ps = positions_before(t, m, n);
    if n - 1 == i {
        assert(ps[ps.len() - 1] == i);
    } else {
        lemma_occurrence_listed(t, m, n - 1, i);
        let q = positions_before(t, m, n - 1);
        let k = choose|k: int| 0 <= k < q.len() && q[k] == i;
        if occurs_at(t, m, n - 1) {
            assert(ps[k] == i);
        }
    }
}

/// Every occurrence of a marker in `x + b + y` lies wholly inside one of
/// the three parts when `b` opens with `<` and closes with `>`.
proof fn lemma_occurrence_in_parts(x: Seq<char>, b: Seq<char>, y: Seq<char>, m: Seq<char>, i: int)
    requires
        marker_shaped(m),
        b.len() >= 1,
        b[0] == '<',
        b.last() == '>',
        occurs_at(x + b + y, m, i),
    ensures
        occurs_at(x, m, i) || occurs_at(b, m, i - x.len()) || occurs_at(y, m, i - x.len() - b.len()),
{
    let t = x + b + y;
    let xl = x.len() as int;
    let bl = b.len() as int;
    let ml = m.len() as int;
    assert(t.subrange(i, i + ml) == m);
    if i + ml <= xl {
        assert(x.subrange(i, i + ml) =~= t.subrange(i, i + ml));
    } else if i < xl {
        let j = xl - i;
        assert(t[xl] == b[0]);
        assert(t.subrange(i, i + ml)[j] == t[i + j]);
        assert(m[j] != '<');
    } else if i + ml <= xl + bl {
        assert(b.subrange(i - xl, i - xl + ml) =~= t.subrange(i, i + ml));
    } else if i < xl + bl {
        let j = xl + bl - 1 - i;
        assert(t[xl + bl - 1] == b[bl - 1]);
        assert(t.subrange(i, i + ml)[j] == t[i + j]);
        assert(m[j] != '>');
    } else {
        assert(y.subrange(i - xl - bl, i - xl - bl + ml) =~= t.subrange(i, i + ml));
    }
}

proof fn lemma_block_ends(b: Seq<char>)
    requires
        framed_block(b),
    ensures
        b.len() >= 1,
        b[0] == '<',
        b.last() == '>',
        b.len() - END_MARKER@.len() > 0,
{
    lemma_markers_shaped();
    let s = START_MARKER@;
    let e = END_MARKER@;
    let q = b.len() - e.len();
    assert(b.subrange(0, s.len() as int)[0] == b[0]);
    assert(b.subrange(q, q + e.len())[e.len() - 1] == b[q + e.len() - 1]);
    if q == 0 {
        assert(b.subrange(0, s.len() as int)[15] == b[15]);
        assert(b.subrange(0, e.len() as int)[15] == b[15]);
    }
}

/// A framed block between texts holding no marker is found again and put
/// back unchanged.
proof fn lemma_framed_in_context(x: Seq<char>, b: Seq<char>, y: Seq<char>)
    requires
        framed_block(b),
        absent(x, START_MARKER@),
        absent(x, END_MARKER@),
        absent(y, START_MARKER@),
        absent(y, END_MARKER@),
    ensures
        apply_block_spec(Some(x + b + y), b) == Some(x + b + y),
{
    lemma_markers_shaped();
    lemma_block_ends(b);
    let t = x + b + y;
    let s = START_MARKER@;
    let e = END_MARKER@;
    let xl = x.len() as int;
    let p = xl;
    let q = xl + b.len() - e.len();
    assert(t.subrange(p, p + s.len()) =~= b.subrange(0, s.len() as int));
    assert(occurs_at(t, s, p));
    assert(t.subrange(q, q + e.len()) =~= b.subrange(b.len() - e.len(), b.len() as int));
    assert(occurs_at(t, e, q));
    assert forall|i: int| 0 <= i < t.len() && i != p implies !#[trigger] occurs_at(t, s, i) by {
        if occurs_at(t, s, i) {
            lemma_occurrence_in_parts(x, b, y, s, i);
        }
    }
    assert forall|i: int| 0 <= i < t.len() && i != q implies !#[trigger] occurs_at(t, e, i) by {
        if occurs_at(t, e, i) {
            lemma_occurrence_in_parts(x, b, y, e, i);
        }
    }
    lemma_positions_before_one(t, s, t.len() as int, p);
    lemma_positions_before_one(t, e, t.len() as int, q);
    assert(t.take(p) =~= x);
    assert(t.skip(q + e.len()) =~= y);
}

proof fn lemma_trim_end_newlines_prefix(s: Seq<char>)
    ensures
        trim_end_newlines(s) =~= s.take(trim_end_newlines(s).len() as int),
        trim_end_newlines(s).len() <= s.len(),
    decreases s.len(),
{
    if s.len() > 0 && (s.last() == '\n' || s.last() == '\r') {
        lemma_trim_end_newlines_prefix(s.drop_last());
    }
}

proof fn lemma_newline_absent(m: Seq<char>)
    requires
        marker_shaped(m),
    ensures
        absent(seq!['\n'], m),
        absent(Seq::<char>::empty(), m),
{
}

/// Putting the same block into an instruction file a second time changes
/// nothing: the second pass finds the block's own markers and replaces the
/// block with itself. (This is what makes re-running `init` harmless.)
pub proof fn lemma_apply_block_idempotent(existing: Option<Seq<char>>, block: Seq<char>)
    requires
        framed_block(block),
    ensures
        apply_block_spec(existing, block) matches Some(t) ==> apply_block_spec(Some(t), block) == Some(t),
{
    lemma_markers_shaped();
    let s = START_MARKER@;
    let e = END_MARKER@;
    let nl = seq!['\n'];
    let empty = Seq::<char>::empty();
    lemma_newline_absent(s);
    lemma_newline_absent(e);
    assert(block + "\n"@ =~= empty + block + nl) by {
        reveal_strlit("\n");
    }
    match existing {
        None => {
            lemma_framed_in_context(empty, block, nl);
        },
        Some(t0) => {
            let ps = positions(t0, s);
            let pe = positions(t0, e);
            if ps.len() == 0 && pe.len() == 0 {
                let body = trim_end_newlines(t0);
                if trim(body).len() == 0 {
                    lemma_framed_in_context(empty, block, nl);
                } else {
                    let x = body + "\n\n"@;
                    assert(x =~= body + seq!['\n', '\n']) by {
                        reveal_strlit("\n\n");
                    }
                    lemma_trim_end_newlines_prefix(t0);
                    assert forall|m: Seq<char>| m == s || m == e implies absent(x, m) by {
                        assert forall|i: int| !#[trigger] occurs_at(x, m, i) by {
                            if occurs_at(x, m, i) {
                                if i + m.len() <= body.len() {
                                    assert(t0.subrange(i, i + m.len()) =~= x.subrange(i, i + m.len()));
                                    lemma_occurrence_listed(t0, m, t0.len() as int, i);
                                } else {
                                    let k = i + m.len() - 1;
                                    assert(x.subrange(i, i + m.len())[m.len() - 1] == x[k]);
                                    assert(x[k] == '\n');
                                }
                            }
                        }
                    }
                    assert(body + "\n\n"@ + block + "\n"@ =~= x + block + nl) by {
                        reveal_strlit("\n");
                    }
                    lemma_framed_in_context(x, block, nl);
                }
            } else if ps.len() == 1 && pe.len() == 1 && ps[0] < pe[0] {
                let p = ps[0];
                let q = pe[0];
                crate::commands::init::lemma_positions_occur(t0, s, t0.len() as int, 0);
                crate::commands::init::lemma_positions_occur(t0, e, t0.len() as int, 0);
                let x = t0.take(p);
                let y = t0.skip(q + e.len());
                assert forall|m: Seq<char>| m == s || m == e implies absent(x, m) && absent(y, m) by {
                    assert forall|i: int| !#[trigger] occurs_at(x, m, i) by {
                        if occurs_at(x, m, i) {
                            assert(t0.subrange(i, i + m.len()) =~= x.subrange(i, i + m.len()));
                            lemma_occurrence_listed(t0, m, t0.len() as int, i);
                        }
                    }
                    assert forall|i: int| !#[trigger] occurs_at(y, m, i) by {
                        if occurs_at(y, m, i) {
                            let j = i + q + e.len();
                            assert(t0.subrange(j, j + m.len()) =~= y.subrange(i, i + m.len()));
                            lemma_occurrence_listed(t0, m, t0.len() as int, j);
                        }
                    }
                }
                lemma_framed_in_context(x, block, y);
            }
        },
    }
}

} // verus!
