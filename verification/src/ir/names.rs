//! Name normalization for `Dependency.to_name`.
//!
//! Parsers record targets as written in source (`crate::ir::types::Symbol`,
//! `fmt.Println`, `Processor<String>`). The index keys reverse lookups on
//! [`dep_target_key`] and `refs` matches with [`dep_matches`], so every
//! language shares one set of rules.

use vstd::prelude::*;

use crate::text::{
    char_is_ws, chars_of, contains, find, find_exec, is_ws, lemma_take_push, occurs_at,
    occurs_at_exec, starts_with, starts_with_exec, string_from, sub_vec, trim, trim_bounds,
    trim_end, trim_end_char, trim_start, views,
};

verus! {

// ---------------------------------------------------------------------------
// strip_generics
// ---------------------------------------------------------------------------

/// One step of the generic-stripping scan: output so far and bracket depth.
pub open spec fn sg_step(st: (Seq<char>, nat), c: char) -> (Seq<char>, nat) {
    let (o, d) = st;
    if c == '<' || c == '[' {
        (o, d + 1)
    } else if (c == '>' || c == ']') && d > 0 {
        (o, (d - 1) as nat)
    } else if d == 0 {
        (o.push(c), d)
    } else {
        (o, d)
    }
}

/// The generic-stripping scan over `s`, left to right.
pub open spec fn sg_scan(s: Seq<char>) -> (Seq<char>, nat)
    decreases s.len(),
{
    if s.len() == 0 {
        (seq![], 0)
    } else {
        sg_step(sg_scan(s.drop_last()), s.last())
    }
}

/// Every `::::` replaced by `::`, non-overlapping, left to right.
pub open spec fn replace_quad(s: Seq<char>) -> Seq<char>
    decreases s.len(),
{
    if s.len() < 4 {
        s
    } else if s.take(4) == "::::"@ {
        "::"@ + replace_quad(s.skip(4))
    } else {
        seq![s[0]] + replace_quad(s.skip(1))
    }
}

pub proof fn lemma_quad_literal()
    ensures
        "::::"@ == seq![':', ':', ':', ':'],
        "::"@ == seq![':', ':'],
{
    reveal_strlit("::::");
    reveal_strlit("::");
}

pub proof fn lemma_replace_quad_len(s: Seq<char>)
    ensures
        replace_quad(s).len() <= s.len(),
        contains(s, "::::"@) ==> replace_quad(s).len() < s.len(),
    decreases s.len(),
{
    lemma_quad_literal();
    if s.len() < 4 {
        if contains(s, "::::"@) {
            let i = choose|i: int| occurs_at(s, "::::"@, i);
        }
    } else if s.take(4) == "::::"@ {
        lemma_replace_quad_len(s.skip(4));
    } else {
        lemma_replace_quad_len(s.skip(1));
        if contains(s, "::::"@) {
            let i = choose|i: int| occurs_at(s, "::::"@, i);
            if i == 0 {
                assert(s.subrange(0, 4) == s.take(4));
            } else {
                assert(s.skip(1).subrange(i - 1, i + 3) =~= s.subrange(i, i + 4));
                assert(occurs_at(s.skip(1), "::::"@, i - 1));
            }
        }
    }
}

/// Replace `::::` by `::` until none is left.
pub open spec fn collapse_quads(s: Seq<char>) -> Seq<char>
    decreases s.len(),
{
    if contains(s, "::::"@) {
        proof {
            lemma_replace_quad_len(s);
        }
        collapse_quads(replace_quad(s))
    } else {
        s
    }
}

/// `Processor<String>` → `Processor`, `Vec::<i32>::new` → `Vec::new`,
/// `Generic[T]` → `Generic`: bracketed argument lists removed, leftover
/// `::::` collapsed, trailing `:` and surrounding whitespace trimmed.
pub open spec fn strip_generics_spec(s: Seq<char>) -> Seq<char> {
    trim(trim_end_char(collapse_quads(sg_scan(s).0), ':'))
}

fn replace_quad_exec(v: &Vec<char>) -> (r: Vec<char>)
    ensures
        r@ == replace_quad(v@),
{
    proof {
        lemma_quad_literal();
    }
    let mut r: Vec<char> = Vec::new();
    let mut i: usize = 0;
    let n = v.len();
    assert(v@.skip(0) =~= v@);
    while i < n
        invariant
            n == v.len(),
            i <= n,
            r@ + replace_quad(v@.skip(i as int)) == replace_quad(v@),
        decreases n - i,
    {
        proof {
            lemma_quad_literal();
        }
        let ghost rest = v@.skip(i as int);
        if n - i >= 4 && v[i] == ':' && v[i + 1] == ':' && v[i + 2] == ':' && v[i + 3] == ':' {
            assert(rest.take(4) =~= "::::"@);
            assert(rest.skip(4) =~= v@.skip(i + 4));
            r.push(':');
            r.push(':');
            assert(r@ + replace_quad(v@.skip(i + 4)) =~= (r@.drop_last().drop_last()) + (
            "::"@ + replace_quad(v@.skip(i + 4))));
            i += 4;
        } else {
            if n - i >= 4 {
                assert(rest.take(4) != "::::"@) by {
                    if rest.take(4) == "::::"@ {
                        assert(rest.take(4)[0] == v@[i as int]);
                        assert(rest.take(4)[1] == v@[i + 1]);
                        assert(rest.take(4)[2] == v@[i + 2]);
                        assert(rest.take(4)[3] == v@[i + 3]);
                    }
                }
                assert(rest.skip(1) =~= v@.skip(i + 1));
                r.push(v[i]);
                assert(r@ + replace_quad(v@.skip(i + 1)) =~= r@.drop_last() + (seq![rest[0]]
                    + replace_quad(rest.skip(1))));
            } else {
                assert(rest.skip(1) =~= v@.skip(i + 1));
                assert(replace_quad(rest) == rest);
                assert(replace_quad(v@.skip(i + 1)) == v@.skip(i + 1));
                r.push(v[i]);
                assert(r@ + replace_quad(v@.skip(i + 1)) =~= r@.drop_last() + rest);
            }
            i += 1;
        }
    }
    assert(v@.skip(n as int) =~= Seq::<char>::empty());
    assert(r@ + Seq::<char>::empty() =~= r@);
    r
}

fn has_quad(v: &Vec<char>) -> (r: bool)
    ensures
        r == contains(v@, "::::"@),
{
    proof {
        lemma_quad_literal();
    }
    let pat: Vec<char> = vec![':', ':', ':', ':'];
    assert(pat@ =~= "::::"@);
    crate::text::contains_exec(v, &pat)
}

/// Remove generic / subscript argument lists (see [`strip_generics_spec`]).
pub fn strip_generics_vec(s: &Vec<char>) -> (r: Vec<char>)
    ensures
        r@ == strip_generics_spec(s@),
{
    let mut out: Vec<char> = Vec::new();
    let mut depth: usize = 0;
    let mut i: usize = 0;
    while i < s.len()
        invariant
            i <= s.len(),
            depth <= i,
            (out@, depth as nat) == sg_scan(s@.take(i as int)),
        decreases s.len() - i,
    {
        proof {
            lemma_take_push(s@, i as int);
        }
        let c = s[i];
        if c == '<' || c == '[' {
            depth += 1;
        } else if (c == '>' || c == ']') && depth > 0 {
            depth -= 1;
        } else if depth == 0 {
            out.push(c);
        }
        i += 1;
    }
    assert(s@.take(s.len() as int) =~= s@);
    while has_quad(&out)
        invariant
            collapse_quads(out@) == collapse_quads(sg_scan(s@).0),
        decreases out@.len(),
    {
        proof {
            lemma_replace_quad_len(out@);
        }
        out = replace_quad_exec(&out);
    }
    let mut e = out.len();
    assert(out@.take(e as int) =~= out@);
    while e > 0 && out[e - 1] == ':'
        invariant
            e <= out.len(),
            trim_end_char(out@, ':') == trim_end_char(out@.take(e as int), ':'),
        decreases e,
    {
        assert(out@.take(e as int).drop_last() =~= out@.take(e - 1));
        e -= 1;
    }
    assert(out@.take(out.len() as int) =~= out@);
    let trimmed = sub_vec(&out, 0, e);
    assert(trimmed@ =~= out@.take(e as int));
    let (a, b) = trim_bounds(&trimmed);
    sub_vec(&trimmed, a, b)
}

/// Remove generic / subscript argument lists: `Processor<String>` →
/// `Processor`, `Vec::<i32>::new` → `Vec::new`, `Generic[T]` → `Generic`.
pub fn strip_generics(s: &str) -> (r: String)
    ensures
        r@ == strip_generics_spec(s@),
{
    let v = chars_of(s);
    let w = strip_generics_vec(&v);
    string_from(&w)
}

// ---------------------------------------------------------------------------
// path_segments
// ---------------------------------------------------------------------------

pub open spec fn is_sep(c: char) -> bool {
    c == ':' || c == '.' || c == '/'
}

/// Close the current piece: keep it (trimmed) unless it is empty or `*`.
pub open spec fn flush(segs: Seq<Seq<char>>, cur: Seq<char>) -> Seq<Seq<char>> {
    let t = trim(cur);
    if t.len() > 0 && t != "*"@ {
        segs.push(t)
    } else {
        segs
    }
}

/// Segments closed so far and the piece being read, after scanning `s`.
pub open spec fn seg_scan(s: Seq<char>) -> (Seq<Seq<char>>, Seq<char>)
    decreases s.len(),
{
    if s.len() == 0 {
        (seq![], seq![])
    } else {
        let (segs, cur) = seg_scan(s.drop_last());
        if is_sep(s.last()) {
            (flush(segs, cur), seq![])
        } else {
            (segs, cur.push(s.last()))
        }
    }
}

/// `s` split on `::`, `.` and `/` (each of `:`, `.`, `/` separates), pieces
/// trimmed, empty pieces and glob pieces (`*`) dropped.
pub open spec fn path_segments_spec(s: Seq<char>) -> Seq<Seq<char>> {
    let (segs, cur) = seg_scan(s);
    flush(segs, cur)
}

fn flush_exec(segs: &mut Vec<String>, cur: &Vec<char>)
    ensures
        views(final(segs)@) == flush(views(old(segs)@), cur@),
{
    let (a, b) = trim_bounds(cur);
    let t = sub_vec(cur, a, b);
    proof {
        reveal_strlit("*");
    }
    let star: Vec<char> = vec!['*'];
    assert(star@ =~= "*"@);
    if t.len() > 0 && !crate::text::vec_eq(&t, &star) {
        let s = string_from(&t);
        segs.push(s);
        assert(views(segs@) =~= views(old(segs)@).push(t@));
    }
}

/// Split a path on any of the separators `::`, `.`, `/`, dropping empty
/// segments (leading `./`, `..x`, trailing `::`) and glob segments (`*`).
pub fn path_segments(s: &str) -> (r: Vec<String>)
    ensures
        views(r@) == path_segments_spec(s@),
{
    let v = chars_of(s);
    path_segments_vec(&v)
}

pub fn path_segments_vec(v: &Vec<char>) -> (r: Vec<String>)
    ensures
        views(r@) == path_segments_spec(v@),
{
    let mut segs: Vec<String> = Vec::new();
    let mut cur: Vec<char> = Vec::new();
    let mut i: usize = 0;
    assert(views(segs@) =~= Seq::<Seq<char>>::empty());
    while i < v.len()
        invariant
            i <= v.len(),
            (views(segs@), cur@) == seg_scan(v@.take(i as int)),
        decreases v.len() - i,
    {
        proof {
            lemma_take_push(v@, i as int);
        }
        let c = v[i];
        if c == ':' || c == '.' || c == '/' {
            flush_exec(&mut segs, &cur);
            cur = Vec::new();
            assert(cur@ =~= Seq::<char>::empty());
        } else {
            cur.push(c);
        }
        i += 1;
    }
    assert(v@.take(v.len() as int) =~= v@);
    flush_exec(&mut segs, &cur);
    segs
}

// ---------------------------------------------------------------------------
// normalize_target
// ---------------------------------------------------------------------------

/// `s` up to the first occurrence of `p` (all of `s` if `p` does not occur).
pub open spec fn cut_at(s: Seq<char>, p: Seq<char>) -> Seq<char> {
    match find(s, p) {
        Some(i) => s.take(i),
        None => s,
    }
}

/// Leading `&` and `*` sigils removed.
pub open spec fn trim_sigils(s: Seq<char>) -> Seq<char>
    decreases s.len(),
{
    if s.len() > 0 && (s[0] == '&' || s[0] == '*') {
        trim_sigils(s.drop_first())
    } else {
        s
    }
}

/// Every leading repetition of the (non-empty) prefix `p` removed.
pub open spec fn trim_prefix_all(s: Seq<char>, p: Seq<char>) -> Seq<char>
    decreases s.len(),
{
    if p.len() > 0 && starts_with(s, p) {
        trim_prefix_all(s.skip(p.len() as int), p)
    } else {
        s
    }
}

/// The path a dependency target (or a query) names, without generics,
/// aliases, grouped lists or reference/pointer sigils:
/// `use a::b as c` → `a::b`, `crate::x::{A, B}` → `crate::x`, `&dyn Foo<T>` → `Foo`.
pub open spec fn normalize_target_spec(t: Seq<char>) -> Seq<char> {
    let s = cut_at(cut_at(trim(t), " as "@), "{"@);
    let s = trim_prefix_all(
        trim_prefix_all(trim_prefix_all(trim_sigils(s), "mut "@), "dyn "@),
        "impl "@,
    );
    strip_generics_spec(s)
}

fn cut_at_exec(v: Vec<char>, p: &Vec<char>) -> (r: Vec<char>)
    ensures
        r@ == cut_at(v@, p@),
{
    match find_exec(&v, p) {
        Some(i) => {
            assert(v@.subrange(0, i as int) =~= v@.take(i as int));
            sub_vec(&v, 0, i)
        },
        None => v,
    }
}

fn trim_prefix_all_exec(v: Vec<char>, p: &Vec<char>) -> (r: Vec<char>)
    requires
        p.len() > 0,
    ensures
        r@ == trim_prefix_all(v@, p@),
{
    let mut a: usize = 0;
    assert(v@.subrange(0, v.len() as int) =~= v@);
    while a <= v.len() && p.len() <= v.len() - a && occurs_at_exec(&v, p, a)
        invariant
            a <= v.len(),
            p.len() > 0,
            trim_prefix_all(v@, p@) == trim_prefix_all(v@.subrange(a as int, v.len() as int), p@),
        decreases v.len() - a,
    {
        let ghost rest = v@.subrange(a as int, v.len() as int);
        assert(rest.subrange(0, p.len() as int) =~= v@.subrange(a as int, a + p.len()));
        assert(starts_with(rest, p@));
        assert(rest.skip(p.len() as int) =~= v@.subrange(a + p.len(), v.len() as int));
        a = a + p.len();
    }
    let ghost rest = v@.subrange(a as int, v.len() as int);
    if p.len() <= v.len() - a {
        assert(!starts_with(rest, p@)) by {
            if starts_with(rest, p@) {
                assert(rest.subrange(0, p.len() as int) =~= v@.subrange(a as int, a + p.len()));
            }
        }
    }
    sub_vec(&v, a, v.len())
}

/// Normalize a target (see [`normalize_target_spec`]).
fn normalize_target(to_name: &str) -> (r: Vec<char>)
    ensures
        r@ == normalize_target_spec(to_name@),
{
    proof {
        reveal_strlit(" as ");
        reveal_strlit("{");
        reveal_strlit("mut ");
        reveal_strlit("dyn ");
        reveal_strlit("impl ");
    }
    let v = chars_of(to_name);
    let (a, b) = trim_bounds(&v);
    let s = sub_vec(&v, a, b);
    let as_pat: Vec<char> = vec![' ', 'a', 's', ' '];
    assert(as_pat@ =~= " as "@);
    let s = cut_at_exec(s, &as_pat);
    let brace: Vec<char> = vec!['{'];
    assert(brace@ =~= "{"@);
    let s = cut_at_exec(s, &brace);
    let mut k: usize = 0;
    assert(s@.subrange(0, s.len() as int) =~= s@);
    while k < s.len() && (s[k] == '&' || s[k] == '*')
        invariant
            k <= s.len(),
            trim_sigils(s@) == trim_sigils(s@.subrange(k as int, s.len() as int)),
        decreases s.len() - k,
    {
        assert(s@.subrange(k as int, s.len() as int).drop_first() =~= s@.subrange(
            k + 1,
            s.len() as int,
        ));
        k += 1;
    }
    let s = sub_vec(&s, k, s.len());
    let mut_pat: Vec<char> = vec!['m', 'u', 't', ' '];
    assert(mut_pat@ =~= "mut "@);
    let s = trim_prefix_all_exec(s, &mut_pat);
    let dyn_pat: Vec<char> = vec!['d', 'y', 'n', ' '];
    assert(dyn_pat@ =~= "dyn "@);
    let s = trim_prefix_all_exec(s, &dyn_pat);
    let impl_pat: Vec<char> = vec!['i', 'm', 'p', 'l', ' '];
    assert(impl_pat@ =~= "impl "@);
    let s = trim_prefix_all_exec(s, &impl_pat);
    strip_generics_vec(&s)
}

// ---------------------------------------------------------------------------
// Keys and matching
// ---------------------------------------------------------------------------

/// Lookup key for a dependency target: the last path segment of the
/// normalized target (empty when there is none).
pub open spec fn dep_target_key_spec(t: Seq<char>) -> Seq<char> {
    let segs = path_segments_spec(normalize_target_spec(t));
    if segs.len() > 0 {
        segs.last()
    } else {
        seq![]
    }
}

/// A dependency target matches a query when the query's normalized path
/// segments are a non-empty suffix of the target's.
pub open spec fn dep_matches_spec(t: Seq<char>, q: Seq<char>) -> bool {
    let d = path_segments_spec(normalize_target_spec(t));
    let qs = path_segments_spec(normalize_target_spec(q));
    qs.len() > 0 && qs.len() <= d.len() && d.skip(d.len() - qs.len()) == qs
}

/// The segment naming a qualified target's owner (`User::new` → `User`),
/// unless it is `self`, `Self`, `super` or `crate`.
pub open spec fn dep_qualifier_key_spec(t: Seq<char>) -> Option<Seq<char>> {
    let segs = path_segments_spec(normalize_target_spec(t));
    if segs.len() < 2 {
        None
    } else {
        let q = segs[segs.len() - 2];
        if q == "self"@ || q == "Self"@ || q == "super"@ || q == "crate"@ {
            None
        } else {
            Some(q)
        }
    }
}

/// Lookup key for a dependency target: the last path segment of the
/// normalized target. `crate::index::types::Index` → `Index`,
/// `fmt.Println` → `Println`, `Processor<String>` → `Processor`,
/// `github.com/x/y/models` → `models`, `crate::ir::types::*` → `types`.
pub fn dep_target_key(to_name: &str) -> (r: String)
    ensures
        r@ == dep_target_key_spec(to_name@),
{
    let norm = normalize_target(to_name);
    let segs = path_segments_vec(&norm);
    if segs.len() > 0 {
        let last = segs[segs.len() - 1].clone();
        assert(views(segs@).last() == segs@.last()@);
        last
    } else {
        String::new()
    }
}

fn strings_eq_suffix(d: &Vec<String>, q: &Vec<String>) -> (r: bool)
    requires
        q.len() <= d.len(),
    ensures
        r == (views(d@).skip(d.len() - q.len()) == views(q@)),
{
    let off = d.len() - q.len();
    let mut i: usize = 0;
    while i < q.len()
        invariant
            off == d.len() - q.len(),
            i <= q.len(),
            forall|j: int| 0 <= j < i ==> d@[off + j]@ == q@[j]@,
        decreases q.len() - i,
    {
        if !crate::text::str_eq(d[off + i].as_str(), q[i].as_str()) {
            assert(views(d@).skip(off as int)[i as int] != views(q@)[i as int]);
            return false;
        }
        i += 1;
    }
    assert(views(d@).skip(off as int) =~= views(q@));
    true
}

/// Does a dependency target match a (bare or qualified) query name?
/// Bare query: keys are equal. Qualified query: the dep's path segments end
/// with the query's segments (`::`, `.`, `/` equivalent), so `Symbol::new`
/// matches `Symbol::new` and `crate::ir::types::Symbol::new` but not `new`.
pub fn dep_matches(to_name: &str, query: &str) -> (r: bool)
    ensures
        r == dep_matches_spec(to_name@, query@),
{
    let dn = normalize_target(to_name);
    let qn = normalize_target(query);
    let d = path_segments_vec(&dn);
    let q = path_segments_vec(&qn);
    if q.len() == 0 || d.len() < q.len() {
        return false;
    }
    strings_eq_suffix(&d, &q)
}

/// Secondary lookup key for a qualified call target: the segment naming the
/// callee's owner (`User::new` → `User`, `fmt.Println` → `fmt`,
/// `crate::index::store::load` → `store`). `None` for bare names.
pub fn dep_qualifier_key(to_name: &str) -> (r: Option<String>)
    ensures
        match r {
            Some(s) => dep_qualifier_key_spec(to_name@) == Some(s@),
            None => dep_qualifier_key_spec(to_name@) is None,
        },
{
    let norm = normalize_target(to_name);
    let segs = path_segments_vec(&norm);
    if segs.len() < 2 {
        return None;
    }
    let q = segs[segs.len() - 2].clone();
    assert(views(segs@)[segs.len() - 2] == q@);
    let qs = q.as_str();
    if crate::text::str_eq(qs, "self") || crate::text::str_eq(qs, "Self") || crate::text::str_eq(
        qs,
        "super",
    ) || crate::text::str_eq(qs, "crate") {
        return None;
    }
    Some(q)
}

/// A bare query (one segment) matches exactly the targets with the same key.
pub proof fn lemma_bare_query_matches_by_key(t: Seq<char>, q: Seq<char>)
    requires
        path_segments_spec(normalize_target_spec(q)).len() == 1,
    ensures
        dep_matches_spec(t, q) <==> (dep_target_key_spec(t) == dep_target_key_spec(q)
            && dep_target_key_spec(t).len() > 0),
{
    let d = path_segments_spec(normalize_target_spec(t));
    let qs = path_segments_spec(normalize_target_spec(q));
    lemma_segments_nonempty(normalize_target_spec(t));
    lemma_segments_nonempty(normalize_target_spec(q));
    if d.len() >= 1 {
        assert(d.skip(d.len() - 1) =~= seq![d.last()]);
        assert(qs =~= seq![qs.last()]);
    }
}

/// Every segment is non-empty.
pub proof fn lemma_segments_nonempty(s: Seq<char>)
    ensures
        forall|i: int|
            0 <= i < path_segments_spec(s).len() ==> #[trigger] path_segments_spec(s)[i].len() > 0,
{
    lemma_seg_scan_nonempty(s);
}

proof fn lemma_seg_scan_nonempty(s: Seq<char>)
    ensures
        forall|i: int| 0 <= i < seg_scan(s).0.len() ==> #[trigger] seg_scan(s).0[i].len() > 0,
    decreases s.len(),
{
    if s.len() > 0 {
        lemma_seg_scan_nonempty(s.drop_last());
        let (segs, cur) = seg_scan(s.drop_last());
        if is_sep(s.last()) {
            let f = flush(segs, cur);
            assert forall|i: int| 0 <= i < f.len() implies #[trigger] f[i].len() > 0 by {
                if i < segs.len() {
                    assert(f[i] == segs[i]);
                }
            }
        }
    }
}

} // verus!
