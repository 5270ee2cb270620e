//! Building an [`Index`] from an [`Ir`]: symbols and dependencies, plus the
//! type-reference dependencies derived from parameter, return and field types.

use vstd::prelude::*;

use crate::ir::kinds::{
    is_callable_kind, is_callable_kind_spec, is_type_kind, is_type_kind_spec,
};
use crate::ir::names::{path_segments, path_segments_spec};
use crate::ir::types::{clone_symbols, same_symbol, DepKind, Dependency, Ir, Param, SourceLoc, Symbol, Field};
use crate::text::{chars_of, lemma_push_contains, lemma_take_push, str_eq, string_of, views};

use super::types::{
    as_bucket, file_hits, in_reverse_bucket, name_hits, qualified_hits, reverse_hits, indices_where, keys_distinct, last_where, lookups_consistent,
    single_table_view, table_get, table_view, Index, INDEX_VERSION,
};

verus! {

// ---------------------------------------------------------------------------
// type_name_tokens
// ---------------------------------------------------------------------------

pub open spec fn is_ident(c: char) -> bool {
    crate::text::is_ascii_alnum(c) || c == '_'
}

/// End of the run of identifier characters starting at `i`.
pub open spec fn ident_end(s: Seq<char>, i: int) -> int
    decreases s.len() - i,
{
    if 0 <= i < s.len() && is_ident(s[i]) {
        ident_end(s, i + 1)
    } else {
        i
    }
}

/// Length of a path separator (`::` or `.`) at position `j`, 0 if none.
pub open spec fn sep_len(s: Seq<char>, j: int) -> int {
    if 0 <= j && j + 1 < s.len() && s[j] == ':' && s[j + 1] == ':' {
        2
    } else if 0 <= j < s.len() && s[j] == '.' {
        1
    } else {
        0
    }
}

pub proof fn lemma_ident_end(s: Seq<char>, i: int)
    ensures
        ident_end(s, i) >= i,
        0 <= i < s.len() && is_ident(s[i]) ==> ident_end(s, i) > i,
        0 <= i ==> ident_end(s, i) <= s.len() || ident_end(s, i) == i,
        forall|k: int| i <= k < ident_end(s, i) ==> is_ident(#[trigger] s[k]),
    decreases s.len() - i,
{
    if 0 <= i < s.len() && is_ident(s[i]) {
        lemma_ident_end(s, i + 1);
    }
}

/// End of the identifier path (identifiers joined by `::` or `.`) starting at `i`.
pub open spec fn token_end(s: Seq<char>, i: int) -> int
    decreases s.len() - i,
{
    let j = ident_end(s, i);
    let k = sep_len(s, j);
    if 0 <= i < s.len() && k > 0 && j + k < s.len() && is_ident(s[j + k]) {
        proof {
            lemma_ident_end(s, i);
        }
        token_end(s, j + k)
    } else {
        j
    }
}

pub proof fn lemma_token_end(s: Seq<char>, i: int)
    requires
        0 <= i < s.len(),
        is_ident(s[i]),
    ensures
        i < token_end(s, i) <= s.len(),
    decreases s.len() - i,
{
    lemma_ident_end(s, i);
    lemma_ident_end_bound(s, i);
    let j = ident_end(s, i);
    let k = sep_len(s, j);
    if k > 0 && j + k < s.len() && is_ident(s[j + k]) {
        lemma_token_end(s, j + k);
    }
}

proof fn lemma_ident_end_bound(s: Seq<char>, i: int)
    requires
        0 <= i <= s.len(),
    ensures
        ident_end(s, i) <= s.len(),
    decreases s.len() - i,
{
    if i < s.len() && is_ident(s[i]) {
        lemma_ident_end_bound(s, i + 1);
    }
}

/// Identifier paths of a type string from position `i` on; a path starting
/// with a digit is dropped.
pub open spec fn tokens_from(s: Seq<char>, i: int) -> Seq<Seq<char>>
    decreases s.len() - i,
{
    if i < 0 || i >= s.len() {
        seq![]
    } else if !is_ident(s[i]) {
        tokens_from(s, i + 1)
    } else {
        proof {
            lemma_token_end(s, i);
        }
        let e = token_end(s, i);
        let tok = s.subrange(i, e);
        if crate::text::is_ascii_digit(tok[0]) {
            tokens_from(s, e)
        } else {
            seq![tok] + tokens_from(s, e)
        }
    }
}

/// `&mut crate::x::Index` → `mut`, `crate::x::Index`; `map[int64]*models.User`
/// → `map`, `int64`, `models.User`; `Promise<User[]>` → `Promise`, `User`.
pub open spec fn type_tokens_spec(ty: Seq<char>) -> Seq<Seq<char>> {
    tokens_from(ty, 0)
}

fn ident_char(c: char) -> (r: bool)
    ensures
        r == is_ident(c),
{
    crate::text::char_is_alnum(c) || c == '_'
}

/// Split a type string into identifier paths: `&mut crate::x::Index` →
/// `mut`, `crate::x::Index`; `map[int64]*models.User` → `map`, `int64`,
/// `models.User`; `Promise<User[]>` → `Promise`, `User`. Paths keep `::` and
/// `.` separators; anything else ends a token; tokens starting with a digit
/// are dropped.
pub fn type_name_tokens(ty: &str) -> (r: Vec<String>)
    ensures
        views(r@) == type_tokens_spec(ty@),
{
    let v = chars_of(ty);
    let n = v.len();
    let mut out: Vec<String> = Vec::new();
    let mut i: usize = 0;
    assert(views(out@) =~= Seq::<Seq<char>>::empty());
    while i < n
        invariant
            n == v.len(),
            v@ == ty@,
            i <= n,
            views(out@) + tokens_from(ty@, i as int) == tokens_from(ty@, 0),
        decreases n - i,
    {
        if !ident_char(v[i]) {
            i += 1;
            continue;
        }
        let start = i;
        proof {
            lemma_token_end(ty@, start as int);
        }
        let mut cur = i;
        let mut end: usize = 0;
        loop
            invariant
                n == v.len(),
                v@ == ty@,
                start < n,
                is_ident(ty@[start as int]),
                cur < n,
                is_ident(ty@[cur as int]),
                token_end(ty@, start as int) == token_end(ty@, cur as int),
            ensures
                end as int == token_end(ty@, start as int),
                end <= n,
            decreases n - cur,
        {
            proof {
                lemma_ident_end(ty@, cur as int);
                lemma_ident_end_bound(ty@, cur as int);
            }
            let mut j = cur;
            while j < n && ident_char(v[j])
                invariant
                    cur <= j <= n,
                    n == v.len(),
                    v@ == ty@,
                    ident_end(ty@, cur as int) == ident_end(ty@, j as int),
                decreases n - j,
            {
                j += 1;
            }
            let k: usize = if j < n && n - j >= 2 && v[j] == ':' && v[j + 1] == ':' {
                2
            } else if j < n && v[j] == '.' {
                1
            } else {
                0
            };
            assert(ident_end(ty@, j as int) == j);
            assert(k as int == sep_len(ty@, j as int));
            if k > 0 && k < n - j && ident_char(v[j + k]) {
                cur = j + k;
            } else {
                end = j;
                break;
            }
        }
        let ghost e = token_end(ty@, start as int);
        assert(end as int == e);
        let tok = string_of(&v, start, end);
        let ghost before = views(out@);
        if !('0' <= v[start] && v[start] <= '9') {
            out.push(tok);
            assert(views(out@) =~= before.push(tok@));
            assert(before.push(tok@) + tokens_from(ty@, e) =~= before + (seq![tok@] + tokens_from(ty@, e)));
        }
        i = end;
    }
    out
}

// ---------------------------------------------------------------------------
// type_deps
// ---------------------------------------------------------------------------

/// A dependency's content: from, to, kind, location.
pub open spec fn dep_tuple(d: Dependency) -> (Seq<char>, Seq<char>, DepKind, SourceLoc) {
    (d.from_qualified@, d.to_name@, d.kind, d.loc)
}

pub open spec fn dep_tuples(v: Seq<Dependency>) -> Seq<(Seq<char>, Seq<char>, DepKind, SourceLoc)> {
    v.map_values(|d: Dependency| dep_tuple(d))
}

/// Names of the type-kind symbols, in order.
pub open spec fn type_names(s: Seq<Symbol>) -> Seq<Seq<char>> {
    s.filter(|x: Symbol| is_type_kind_spec(x.kind@)).map_values(|x: Symbol| x.name@)
}

/// A token names a project type when its last path segment is a type name.
pub open spec fn is_project_type(tok: Seq<char>, names: Seq<Seq<char>>) -> bool {
    let segs = path_segments_spec(tok);
    segs.len() > 0 && names.contains(segs.last())
}

pub open spec fn token_cands(
    qn: Seq<char>,
    loc: SourceLoc,
    k: DepKind,
    toks: Seq<Seq<char>>,
    names: Seq<Seq<char>>,
) -> Seq<(Seq<char>, Seq<char>, DepKind, SourceLoc)>
    decreases toks.len(),
{
    if toks.len() == 0 {
        seq![]
    } else {
        token_cands(qn, loc, k, toks.drop_last(), names) + if is_project_type(toks.last(), names) {
            seq![(qn, toks.last(), k, loc)]
        } else {
            seq![]
        }
    }
}

pub open spec fn type_cands(
    qn: Seq<char>,
    loc: SourceLoc,
    k: DepKind,
    tys: Seq<Seq<char>>,
    names: Seq<Seq<char>>,
) -> Seq<(Seq<char>, Seq<char>, DepKind, SourceLoc)>
    decreases tys.len(),
{
    if tys.len() == 0 {
        seq![]
    } else {
        type_cands(qn, loc, k, tys.drop_last(), names) + token_cands(
            qn,
            loc,
            k,
            type_tokens_spec(tys.last()),
            names,
        )
    }
}

/// The kinds whose parameter and return types give `TypeRef`
/// dependencies: fn, func, function, def and method.
pub open spec fn has_signature_types(k: Seq<char>) -> bool {
    is_callable_kind_spec(k) || k == "def"@
}

/// The dependency kind and the type strings a symbol contributes: parameter
/// and return types of callables (`TypeRef`), field types of types with
/// fields (`FieldType`); `false` when it contributes none.
pub open spec fn sym_types(s: Symbol) -> (DepKind, Seq<Seq<char>>, bool) {
    if has_signature_types(s.kind@) {
        (
            DepKind::TypeRef,
            s.params@.map_values(|p: Param| p.type_str@) + match s.return_type {
                Some(r) => seq![r@],
                None => seq![],
            },
            true,
        )
    } else if is_type_kind_spec(s.kind@) && s.fields@.len() > 0 {
        (DepKind::FieldType, s.fields@.map_values(|f: Field| f.type_str@), true)
    } else {
        (DepKind::TypeRef, seq![], false)
    }
}

pub open spec fn sym_cands(s: Symbol, names: Seq<Seq<char>>) -> Seq<(Seq<char>, Seq<char>, DepKind, SourceLoc)> {
    let (k, tys, ok) = sym_types(s);
    if ok {
        type_cands(s.qualified_name@, s.loc, k, tys, names)
    } else {
        seq![]
    }
}

pub open spec fn all_cands(ss: Seq<Symbol>, names: Seq<Seq<char>>) -> Seq<(Seq<char>, Seq<char>, DepKind, SourceLoc)>
    decreases ss.len(),
{
    if ss.len() == 0 {
        seq![]
    } else {
        all_cands(ss.drop_last(), names) + sym_cands(ss.last(), names)
    }
}

pub open spec fn pair_of(d: (Seq<char>, Seq<char>, DepKind, SourceLoc)) -> (Seq<char>, Seq<char>) {
    (d.0, d.1)
}

pub open spec fn pairs(c: Seq<(Seq<char>, Seq<char>, DepKind, SourceLoc)>) -> Seq<(Seq<char>, Seq<char>)> {
    c.map_values(|d: (Seq<char>, Seq<char>, DepKind, SourceLoc)| pair_of(d))
}

/// Keep the first dependency of each `(from, to)` pair.
pub open spec fn dedup_deps(c: Seq<(Seq<char>, Seq<char>, DepKind, SourceLoc)>) -> Seq<(Seq<char>, Seq<char>, DepKind, SourceLoc)>
    decreases c.len(),
{
    if c.len() == 0 {
        seq![]
    } else if pairs(c.drop_last()).contains(pair_of(c.last())) {
        dedup_deps(c.drop_last())
    } else {
        dedup_deps(c.drop_last()).push(c.last())
    }
}

/// The type-reference dependencies derived from the symbols.
pub open spec fn type_deps_spec(ss: Seq<Symbol>) -> Seq<(Seq<char>, Seq<char>, DepKind, SourceLoc)> {
    let names = type_names(ss);
    if names.len() == 0 {
        seq![]
    } else {
        dedup_deps(all_cands(ss, names))
    }
}

proof fn lemma_dedup_pairs_within(c: Seq<(Seq<char>, Seq<char>, DepKind, SourceLoc)>, p: (Seq<char>, Seq<char>))
    ensures
        pairs(dedup_deps(c)).contains(p) ==> pairs(c).contains(p),
    decreases c.len(),
{
    if c.len() > 0 {
        lemma_dedup_pairs_within(c.drop_last(), p);
        assert(pairs(c) =~= pairs(c.drop_last()).push(pair_of(c.last())));
        lemma_push_contains(pairs(c.drop_last()), pair_of(c.last()), p);
        if !pairs(c.drop_last()).contains(pair_of(c.last())) {
            assert(pairs(dedup_deps(c)) =~= pairs(dedup_deps(c.drop_last())).push(pair_of(c.last())));
            lemma_push_contains(pairs(dedup_deps(c.drop_last())), pair_of(c.last()), p);
        }
    }
}

/// The derived dependencies never repeat a `(from, to)` pair.
pub proof fn lemma_type_deps_distinct(ss: Seq<Symbol>)
    ensures
        pairs(type_deps_spec(ss)).no_duplicates(),
{
    let names = type_names(ss);
    if names.len() > 0 {
        lemma_dedup_distinct(all_cands(ss, names));
    } else {
        assert(pairs(type_deps_spec(ss)) =~= Seq::<(Seq<char>, Seq<char>)>::empty());
    }
}

proof fn lemma_dedup_distinct(c: Seq<(Seq<char>, Seq<char>, DepKind, SourceLoc)>)
    ensures
        pairs(dedup_deps(c)).no_duplicates(),
    decreases c.len(),
{
    if c.len() == 0 {
        assert(pairs(dedup_deps(c)) =~= Seq::<(Seq<char>, Seq<char>)>::empty());
    } else {
        lemma_dedup_distinct(c.drop_last());
        if !pairs(c.drop_last()).contains(pair_of(c.last())) {
            let prev = pairs(dedup_deps(c.drop_last()));
            lemma_dedup_pairs_within(c.drop_last(), pair_of(c.last()));
            assert(pairs(dedup_deps(c)) =~= prev.push(pair_of(c.last())));
            assert forall|i: int, j: int| 0 <= i < j < prev.len() + 1 implies
                #[trigger] prev.push(pair_of(c.last()))[i] != #[trigger] prev.push(pair_of(c.last()))[j] by {
                if j == prev.len() {
                    assert(prev[i] == prev.push(pair_of(c.last()))[i]);
                    if prev[i] == pair_of(c.last()) {
                        assert(prev.contains(pair_of(c.last())));
                    }
                }
            }
        }
    }
}

fn clone_loc(l: &SourceLoc) -> (r: SourceLoc)
    ensures
        r == *l,
{
    SourceLoc { file: l.file.clone(), line: l.line, col: l.col }
}

fn contains_string(v: &Vec<String>, s: &str) -> (r: bool)
    ensures
        r == views(v@).contains(s@),
{
    let mut i: usize = 0;
    while i < v.len()
        invariant
            i <= v.len(),
            forall|j: int| 0 <= j < i ==> v@[j]@ != s@,
        decreases v.len() - i,
    {
        if str_eq(v[i].as_str(), s) {
            assert(views(v@)[i as int] == s@);
            return true;
        }
        i += 1;
    }
    assert(!views(v@).contains(s@)) by {
        if views(v@).contains(s@) {
            let j = choose|j: int| 0 <= j < views(v@).len() && views(v@)[j] == s@;
            assert(v@[j]@ == s@);
        }
    }
    false
}

fn project_type(tok: &str, names: &Vec<String>) -> (r: bool)
    ensures
        r == is_project_type(tok@, views(names@)),
{
    let segs = path_segments(tok);
    if segs.len() == 0 {
        return false;
    }
    assert(views(segs@).last() == segs@[segs.len() - 1]@);
    contains_string(names, segs[segs.len() - 1].as_str())
}

fn type_name_list(symbols: &Vec<Symbol>) -> (r: Vec<String>)
    ensures
        views(r@) == type_names(symbols@),
{
    let ghost p = |x: Symbol| is_type_kind_spec(x.kind@);
    let mut r: Vec<String> = Vec::new();
    let mut i: usize = 0;
    while i < symbols.len()
        invariant
            i <= symbols.len(),
            p == (|x: Symbol| is_type_kind_spec(x.kind@)),
            views(r@) == symbols@.take(i as int).filter(p).map_values(|x: Symbol| x.name@),
        decreases symbols.len() - i,
    {
        proof {
            super::types::lemma_filter_step(symbols@, i as int, p);
        }
        let ghost before = views(r@);
        if is_type_kind(symbols[i].kind.as_str()) {
            r.push(symbols[i].name.clone());
            assert(views(r@) =~= before.push(symbols@[i as int].name@));
            assert(symbols@.take(i + 1).filter(p).map_values(|x: Symbol| x.name@) =~= symbols@.take(i as int).filter(p).map_values(|x: Symbol| x.name@).push(symbols@[i as int].name@));
        } else {
            assert(symbols@.take(i + 1).filter(p).map_values(|x: Symbol| x.name@) =~= symbols@.take(i as int).filter(p).map_values(|x: Symbol| x.name@));
        }
        i += 1;
    }
    assert(symbols@.take(symbols.len() as int) =~= symbols@);
    r
}

fn symbol_type_strings(s: &Symbol) -> (r: (DepKind, Vec<String>, bool))
    ensures
        (r.0, views(r.1@), r.2) == sym_types(*s),
{
    if is_callable_kind(s.kind.as_str()) || str_eq(s.kind.as_str(), "def") {
        let mut v: Vec<String> = Vec::new();
        let mut i: usize = 0;
        while i < s.params.len()
            invariant
                i <= s.params.len(),
                views(v@) == s.params@.take(i as int).map_values(|p: Param| p.type_str@),
            decreases s.params.len() - i,
        {
            let ghost before = views(v@);
            v.push(s.params[i].type_str.clone());
            assert(views(v@) =~= before.push(s.params@[i as int].type_str@));
            assert(s.params@.take(i + 1).map_values(|p: Param| p.type_str@) =~= s.params@.take(i as int).map_values(|p: Param| p.type_str@).push(s.params@[i as int].type_str@));
            i += 1;
        }
        assert(s.params@.take(s.params.len() as int) =~= s.params@);
        let ghost before = views(v@);
        match &s.return_type {
            Some(rt) => {
                v.push(rt.clone());
                assert(views(v@) =~= before + seq![rt@]);
            },
            None => {
                assert(views(v@) =~= before + Seq::<Seq<char>>::empty());
            },
        }
        (DepKind::TypeRef, v, true)
    } else if is_type_kind(s.kind.as_str()) && s.fields.len() > 0 {
        let mut v: Vec<String> = Vec::new();
        let mut i: usize = 0;
        while i < s.fields.len()
            invariant
                i <= s.fields.len(),
                views(v@) == s.fields@.take(i as int).map_values(|f: Field| f.type_str@),
            decreases s.fields.len() - i,
        {
            let ghost before = views(v@);
            v.push(s.fields[i].type_str.clone());
            assert(views(v@) =~= before.push(s.fields@[i as int].type_str@));
            assert(s.fields@.take(i + 1).map_values(|f: Field| f.type_str@) =~= s.fields@.take(i as int).map_values(|f: Field| f.type_str@).push(s.fields@[i as int].type_str@));
            i += 1;
        }
        assert(s.fields@.take(s.fields.len() as int) =~= s.fields@);
        (DepKind::FieldType, v, true)
    } else {
        let v: Vec<String> = Vec::new();
        assert(views(v@) =~= Seq::<Seq<char>>::empty());
        (DepKind::TypeRef, v, false)
    }
}

/// Every candidate, symbol by symbol, type by type, token by token.
fn candidates(symbols: &Vec<Symbol>, names: &Vec<String>) -> (r: Vec<Dependency>)
    ensures
        dep_tuples(r@) == all_cands(symbols@, views(names@)),
{
    let ghost nv = views(names@);
    let mut out: Vec<Dependency> = Vec::new();
    let mut i: usize = 0;
    assert(dep_tuples(out@) =~= all_cands(symbols@.take(0), nv));
    while i < symbols.len()
        invariant
            i <= symbols.len(),
            nv == views(names@),
            dep_tuples(out@) == all_cands(symbols@.take(i as int), nv),
        decreases symbols.len() - i,
    {
        let s = &symbols[i];
        let (k, tys, ok) = symbol_type_strings(s);
        let ghost base = dep_tuples(out@);
        if ok {
            let mut j: usize = 0;
            assert(base + type_cands(s.qualified_name@, s.loc, k, views(tys@).take(0), nv) =~= base);
            while j < tys.len()
                invariant
                    j <= tys.len(),
                    nv == views(names@),
                    dep_tuples(out@) == base + type_cands(s.qualified_name@, s.loc, k, views(tys@).take(j as int), nv),
                decreases tys.len() - j,
            {
                let toks = type_name_tokens(tys[j].as_str());
                let ghost base2 = dep_tuples(out@);
                let mut m: usize = 0;
                assert(base2 + token_cands(s.qualified_name@, s.loc, k, views(toks@).take(0), nv) =~= base2);
                while m < toks.len()
                    invariant
                        m <= toks.len(),
                        nv == views(names@),
                        dep_tuples(out@) == base2 + token_cands(s.qualified_name@, s.loc, k, views(toks@).take(m as int), nv),
                    decreases toks.len() - m,
                {
                    assert(views(toks@).take(m + 1).drop_last() =~= views(toks@).take(m as int));
                    assert(views(toks@).take(m + 1).last() == toks@[m as int]@);
                    let ghost b3 = dep_tuples(out@);
                    if project_type(toks[m].as_str(), names) {
                        let d = Dependency {
                            from_qualified: s.qualified_name.clone(),
                            to_name: toks[m].clone(),
                            kind: k,
                            loc: clone_loc(&s.loc),
                        };
                        out.push(d);
                        assert(dep_tuples(out@) =~= b3.push(dep_tuple(d)));
                    }
                    m += 1;
                }
                assert(views(toks@).take(toks.len() as int) =~= views(toks@));
                assert(views(tys@).take(j + 1).drop_last() =~= views(tys@).take(j as int));
                assert(views(tys@).take(j + 1).last() == tys@[j as int]@);
                j += 1;
            }
            assert(views(tys@).take(tys.len() as int) =~= views(tys@));
        }
        assert(symbols@.take(i + 1).drop_last() =~= symbols@.take(i as int));
        assert(symbols@.take(i + 1).last() == symbols@[i as int]);
        i += 1;
    }
    assert(symbols@.take(symbols.len() as int) =~= symbols@);
    out
}

/// Keep the first candidate of each `(from, to)` pair.
fn dedup(c: &Vec<Dependency>) -> (r: Vec<Dependency>)
    ensures
        dep_tuples(r@) == dedup_deps(dep_tuples(c@)),
{
    let ghost cv = dep_tuples(c@);
    let mut out: Vec<Dependency> = Vec::new();
    let mut m: usize = 0;
    assert(dep_tuples(out@) =~= dedup_deps(cv.take(0)));
    while m < c.len()
        invariant
            m <= c.len(),
            cv == dep_tuples(c@),
            dep_tuples(out@) == dedup_deps(cv.take(m as int)),
            forall|p: (Seq<char>, Seq<char>)|
                #![trigger pairs(dep_tuples(out@)).contains(p)]
                #![trigger pairs(cv.take(m as int)).contains(p)]
                pairs(dep_tuples(out@)).contains(p) <==> pairs(cv.take(m as int)).contains(p),
        decreases c.len() - m,
    {
        let ghost prefix = cv.take(m as int);
        let ghost outv = dep_tuples(out@);
        let ghost pr = pair_of(cv[m as int]);
        assert(cv.take(m + 1).drop_last() =~= prefix);
        assert(cv.take(m + 1).last() == cv[m as int]);
        let mut seen = false;
        let mut q: usize = 0;
        while q < out.len()
            invariant
                q <= out.len(),
                m < c.len(),
                outv == dep_tuples(out@),
                pr == pair_of(dep_tuple(c@[m as int])),
                seen == exists|x: int| 0 <= x < q && pair_of(outv[x]) == pr,
            decreases out.len() - q,
        {
            assert(outv[q as int] == dep_tuple(out@[q as int]));
            if str_eq(out[q].from_qualified.as_str(), c[m].from_qualified.as_str()) && str_eq(
                out[q].to_name.as_str(),
                c[m].to_name.as_str(),
            ) {
                seen = true;
            }
            q += 1;
        }
        let ghost outpairs = pairs(outv);
        assert(seen == outpairs.contains(pr)) by {
            if seen {
                let x = choose|x: int| 0 <= x < out.len() && pair_of(outv[x]) == pr;
                assert(outpairs[x] == pr);
            }
            if outpairs.contains(pr) {
                let x = choose|x: int| 0 <= x < outpairs.len() && outpairs[x] == pr;
                assert(pair_of(outv[x]) == pr);
            }
        }
        if !seen {
            let d = Dependency {
                from_qualified: c[m].from_qualified.clone(),
                to_name: c[m].to_name.clone(),
                kind: c[m].kind,
                loc: clone_loc(&c[m].loc),
            };
            out.push(d);
            assert(dep_tuples(out@) =~= outv.push(cv[m as int]));
        }
        proof {
            assert(pairs(cv.take(m + 1)) =~= pairs(prefix).push(pr));
            if !seen {
                assert(pairs(dep_tuples(out@)) =~= pairs(outv).push(pr));
            }
            assert forall|p: (Seq<char>, Seq<char>)|
                pairs(dep_tuples(out@)).contains(p) <==> pairs(cv.take(m + 1)).contains(p) by {
                lemma_push_contains(pairs(prefix), pr, p);
                lemma_push_contains(pairs(outv), pr, p);
            }
        }
        m += 1;
    }
    assert(cv.take(c.len() as int) =~= cv);
    out
}

/// Type-reference deps derived from what parsers already extract:
/// - `TypeRef` from every callable to each project type named in its
///   parameter types or return type;
/// - `FieldType` from every type-kind symbol to each project type named in
///   its field types.
///
/// A token counts only if its last path segment is the name of a type-kind
/// symbol defined in the project. `to_name` is the token as written, deduped
/// per `(from, to_name)`; `loc` is the symbol's.
pub fn type_deps(symbols: &Vec<Symbol>) -> (r: Vec<Dependency>)
    ensures
        dep_tuples(r@) == type_deps_spec(symbols@),
{
    let names = type_name_list(symbols);
    if names.len() == 0 {
        let r: Vec<Dependency> = Vec::new();
        assert(dep_tuples(r@) =~= Seq::<(Seq<char>, Seq<char>, DepKind, SourceLoc)>::empty());
        return r;
    }
    let c = candidates(symbols, &names);
    dedup(&c)
}

// ---------------------------------------------------------------------------
// Merging the derived dependencies
// ---------------------------------------------------------------------------

/// The distinct entries of `fs`, in the order they first appear.
pub open spec fn first_files(fs: Seq<Seq<char>>) -> Seq<Seq<char>>
    decreases fs.len(),
{
    if fs.len() == 0 {
        seq![]
    } else if fs.drop_last().contains(fs.last()) {
        first_files(fs.drop_last())
    } else {
        first_files(fs.drop_last()).push(fs.last())
    }
}

pub open spec fn dep_file(d: (Seq<char>, Seq<char>, DepKind, SourceLoc)) -> Seq<char> {
    d.3.file@
}

/// The dependencies of `c` located in file `f`, in order.
pub open spec fn in_file(c: Seq<(Seq<char>, Seq<char>, DepKind, SourceLoc)>, f: Seq<char>) -> Seq<(Seq<char>, Seq<char>, DepKind, SourceLoc)> {
    c.filter(|d: (Seq<char>, Seq<char>, DepKind, SourceLoc)| dep_file(d) == f)
}

/// The dependencies of `c` grouped file by file, in the order of `files`.
pub open spec fn grouped(c: Seq<(Seq<char>, Seq<char>, DepKind, SourceLoc)>, files: Seq<Seq<char>>) -> Seq<(Seq<char>, Seq<char>, DepKind, SourceLoc)>
    decreases files.len(),
{
    if files.len() == 0 {
        seq![]
    } else {
        grouped(c, files.drop_last()) + in_file(c, files.last())
    }
}

/// The order of the files: as they first appear among the symbols, then
/// among the dependencies.
pub open spec fn file_order(ss: Seq<Symbol>, all: Seq<(Seq<char>, Seq<char>, DepKind, SourceLoc)>) -> Seq<Seq<char>> {
    first_files(ss.map_values(|s: Symbol| s.loc.file@) + all.map_values(|d: (Seq<char>, Seq<char>, DepKind, SourceLoc)| dep_file(d)))
}

/// The parser dependencies with the derived ones merged in: unchanged when
/// nothing was derived; otherwise all of them grouped by file in the order
/// files first appear, parser dependencies before derived ones within a file.
pub open spec fn merged_deps(
    ss: Seq<Symbol>,
    parsed: Seq<(Seq<char>, Seq<char>, DepKind, SourceLoc)>,
    derived: Seq<(Seq<char>, Seq<char>, DepKind, SourceLoc)>,
) -> Seq<(Seq<char>, Seq<char>, DepKind, SourceLoc)> {
    if derived.len() == 0 {
        parsed
    } else {
        grouped(parsed + derived, file_order(ss, parsed + derived))
    }
}

fn add_file(files: &mut Vec<String>, f: &String, Ghost(fs): Ghost<Seq<Seq<char>>>)
    requires
        views(old(files)@) == first_files(fs),
    ensures
        views(final(files)@) == first_files(fs.push(f@)),
{
    proof {
        lemma_first_files_contains(fs, f@);
    }
    assert(fs.push(f@).drop_last() =~= fs);
    if !contains_string(files, f.as_str()) {
        let ghost before = views(files@);
        files.push(f.clone());
        assert(views(files@) =~= before.push(f@));
    }
}

proof fn lemma_first_files_contains(fs: Seq<Seq<char>>, x: Seq<char>)
    ensures
        first_files(fs).contains(x) <==> fs.contains(x),
    decreases fs.len(),
{
    if fs.len() > 0 {
        lemma_first_files_contains(fs.drop_last(), x);
        assert(fs =~= fs.drop_last().push(fs.last()));
        lemma_push_contains(fs.drop_last(), fs.last(), x);
        if !fs.drop_last().contains(fs.last()) {
            lemma_push_contains(first_files(fs.drop_last()), fs.last(), x);
        }
    }
}

fn clone_dep(d: &Dependency) -> (r: Dependency)
    ensures
        dep_tuple(r) == dep_tuple(*d),
{
    Dependency {
        from_qualified: d.from_qualified.clone(),
        to_name: d.to_name.clone(),
        kind: d.kind,
        loc: clone_loc(&d.loc),
    }
}

/// Merge derived deps into the parser deps, keeping deps grouped by file in
/// the order files first appear (symbols, then deps): each file's derived
/// deps follow its parser deps, so per-file output stays grouped.
fn with_type_deps(symbols: &Vec<Symbol>, parsed: &Vec<Dependency>, derived: &Vec<Dependency>) -> (r: Vec<Dependency>)
    ensures
        dep_tuples(r@) == merged_deps(symbols@, dep_tuples(parsed@), dep_tuples(derived@)),
{
    let mut all: Vec<Dependency> = Vec::new();
    let mut i: usize = 0;
    while i < parsed.len()
        invariant
            i <= parsed.len(),
            dep_tuples(all@) == dep_tuples(parsed@).take(i as int),
        decreases parsed.len() - i,
    {
        let ghost before = dep_tuples(all@);
        all.push(clone_dep(&parsed[i]));
        assert(dep_tuples(all@) =~= before.push(dep_tuple(parsed@[i as int])));
        assert(dep_tuples(all@) =~= dep_tuples(parsed@).take(i + 1));
        i += 1;
    }
    if derived.len() == 0 {
        assert(dep_tuples(parsed@).take(parsed.len() as int) =~= dep_tuples(parsed@));
        return all;
    }
    let mut i: usize = 0;
    while i < derived.len()
        invariant
            i <= derived.len(),
            dep_tuples(all@) == dep_tuples(parsed@) + dep_tuples(derived@).take(i as int),
        decreases derived.len() - i,
    {
        let ghost before = dep_tuples(all@);
        all.push(clone_dep(&derived[i]));
        assert(dep_tuples(all@) =~= before.push(dep_tuple(derived@[i as int])));
        assert(dep_tuples(all@) =~= dep_tuples(parsed@) + dep_tuples(derived@).take(i + 1));
        i += 1;
    }
    let ghost av = dep_tuples(all@);
    assert(av =~= dep_tuples(parsed@) + dep_tuples(derived@));
    // File order: symbols' files, then the dependencies' files.
    let ghost sf = symbols@.map_values(|s: Symbol| s.loc.file@);
    let ghost df = av.map_values(|d: (Seq<char>, Seq<char>, DepKind, SourceLoc)| dep_file(d));
    let mut files: Vec<String> = Vec::new();
    let mut i: usize = 0;
    assert(views(files@) =~= first_files(sf.take(0)));
    while i < symbols.len()
        invariant
            i <= symbols.len(),
            sf == symbols@.map_values(|s: Symbol| s.loc.file@),
            views(files@) == first_files(sf.take(i as int)),
        decreases symbols.len() - i,
    {
        add_file(&mut files, &symbols[i].loc.file, Ghost(sf.take(i as int)));
        assert(sf.take(i as int).push(symbols@[i as int].loc.file@) =~= sf.take(i + 1));
        i += 1;
    }
    assert(sf.take(symbols.len() as int) =~= sf);
    let mut i: usize = 0;
    assert(sf + df.take(0) =~= sf);
    while i < all.len()
        invariant
            i <= all.len(),
            av == dep_tuples(all@),
            df == av.map_values(|d: (Seq<char>, Seq<char>, DepKind, SourceLoc)| dep_file(d)),
            views(files@) == first_files(sf + df.take(i as int)),
        decreases all.len() - i,
    {
        add_file(&mut files, &all[i].loc.file, Ghost(sf + df.take(i as int)));
        assert((sf + df.take(i as int)).push(all@[i as int].loc.file@) =~= sf + df.take(i + 1));
        i += 1;
    }
    assert(df.take(all.len() as int) =~= df);
    let ghost fv = views(files@);
    assert(fv == file_order(symbols@, av));
    // Group by file.
    let mut out: Vec<Dependency> = Vec::new();
    let mut k: usize = 0;
    assert(dep_tuples(out@) =~= grouped(av, fv.take(0)));
    while k < files.len()
        invariant
            k <= files.len(),
            fv == views(files@),
            av == dep_tuples(all@),
            dep_tuples(out@) == grouped(av, fv.take(k as int)),
        decreases files.len() - k,
    {
        let ghost base = dep_tuples(out@);
        let ghost f = fv[k as int];
        let ghost p = |d: (Seq<char>, Seq<char>, DepKind, SourceLoc)| dep_file(d) == f;
        let mut j: usize = 0;
        assert(av.take(0).filter(p) =~= Seq::<(Seq<char>, Seq<char>, DepKind, SourceLoc)>::empty());
        assert(base + av.take(0).filter(p) =~= base);
        while j < all.len()
            invariant
                j <= all.len(),
                k < files.len(),
                fv == views(files@),
                f == fv[k as int],
                av == dep_tuples(all@),
                p == (|d: (Seq<char>, Seq<char>, DepKind, SourceLoc)| dep_file(d) == f),
                dep_tuples(out@) == base + av.take(j as int).filter(p),
            decreases all.len() - j,
        {
            proof {
                super::types::lemma_filter_step(av, j as int, p);
            }
            let ghost before = dep_tuples(out@);
            if str_eq(all[j].loc.file.as_str(), files[k].as_str()) {
                out.push(clone_dep(&all[j]));
                assert(dep_tuples(out@) =~= before.push(av[j as int]));
                assert(base + av.take(j + 1).filter(p) =~= (base + av.take(j as int).filter(p)).push(av[j as int]));
            }
            j += 1;
        }
        assert(av.take(all.len() as int) =~= av);
        assert(fv.take(k + 1).drop_last() =~= fv.take(k as int));
        assert(fv.take(k + 1).last() == f);
        assert(in_file(av, f) == av.filter(p));
        k += 1;
    }
    assert(fv.take(files.len() as int) =~= fv);
    out
}

// ---------------------------------------------------------------------------
// Lookup tables
// ---------------------------------------------------------------------------

/// In a table whose keys are distinct, a key is found at the one place it
/// occurs, and nowhere when it does not occur.
proof fn lemma_table_get<V>(t: Seq<(Seq<char>, V)>, k: Seq<char>)
    requires
        keys_distinct(t),
    ensures
        forall|m: int| 0 <= m < t.len() && #[trigger] t[m].0 == k ==> table_get(t, k) == Some(t[m].1),
        (forall|m: int| 0 <= m < t.len() ==> #[trigger] t[m].0 != k) ==> table_get(t, k) is None,
    decreases t.len(),
{
    if t.len() > 0 {
        let u = t.drop_last();
        assert(keys_distinct(u)) by {
            assert forall|i: int, j: int| 0 <= i < j < u.len() implies #[trigger] u[i].0 != #[trigger] u[j].0 by {
                assert(t[i].0 != t[j].0);
            }
        }
        lemma_table_get(u, k);
        assert forall|m: int| 0 <= m < t.len() && #[trigger] t[m].0 == k implies table_get(t, k) == Some(t[m].1) by {
            if m < t.len() - 1 {
                assert(t[m].0 != t[t.len() - 1].0);
                assert(u[m] == t[m]);
            }
        }
        if forall|m: int| 0 <= m < t.len() ==> #[trigger] t[m].0 != k {
            assert(t[t.len() - 1].0 != k);
            assert forall|m: int| 0 <= m < u.len() implies #[trigger] u[m].0 != k by {
                assert(u[m] == t[m]);
            }
        }
    }
}

/// Where a bucket grows by one index: what a table files under a key after
/// `i` is filed under it.
pub open spec fn bucket_after(old_bucket: Option<Seq<int>>, i: int) -> Seq<int> {
    match old_bucket {
        Some(b) => b.push(i),
        None => seq![i],
    }
}

/// File index `i` under `key`, adding the key at the end when it is new.
fn bucket_push(t: &mut Vec<(String, Vec<usize>)>, key: String, i: usize)
    requires
        keys_distinct(table_view(old(t)@)),
    ensures
        keys_distinct(table_view(final(t)@)),
        table_get(table_view(final(t)@), key@) == Some(bucket_after(table_get(table_view(old(t)@), key@), i as int)),
        forall|k: Seq<char>| k != key@ ==> #[trigger] table_get(table_view(final(t)@), k) == table_get(table_view(old(t)@), k),
{
    let ghost tv = table_view(t@);
    proof {
        lemma_table_get(tv, key@);
    }
    let mut j: usize = 0;
    while j < t.len()
        invariant
            j <= t.len(),
            tv == table_view(t@),
            tv == table_view(old(t)@),
            keys_distinct(tv),
            forall|m: int| 0 <= m < j ==> #[trigger] tv[m].0 != key@,
        decreases t.len() - j,
    {
        if str_eq(t[j].0.as_str(), key.as_str()) {
            assert(tv[j as int].0 == key@);
            let ghost old_t = t@;
            let (k0, mut b) = t.remove(j);
            let ghost oldb = b@;
            assert(oldb == old_t[j as int].1@);
            b.push(i);
            let ghost nb = b@;
            t.insert(j, (k0, b));
            let ghost e = (key@, tv[j as int].1.push(i as int));
            assert(t@ =~= old_t.update(j as int, (k0, b)));
            assert(crate::index::types::ints(nb) =~= crate::index::types::ints(oldb).push(i as int));
            assert(table_view(t@) =~= tv.update(j as int, e));
            proof {
                let nv = tv.update(j as int, e);
                assert(keys_distinct(nv)) by {
                    assert forall|a: int, c: int| 0 <= a < c < nv.len() implies #[trigger] nv[a].0 != #[trigger] nv[c].0 by {
                        assert(nv[a].0 == tv[a].0 && nv[c].0 == tv[c].0);
                    }
                }
                lemma_table_get(nv, key@);
                lemma_table_get(tv, key@);
                assert(nv[j as int].0 == key@);
                assert forall|k: Seq<char>| k != key@ implies #[trigger] table_get(nv, k) == table_get(tv, k) by {
                    lemma_table_get(nv, k);
                    lemma_table_get(tv, k);
                    if exists|m: int| 0 <= m < tv.len() && #[trigger] tv[m].0 == k {
                        let m = choose|m: int| 0 <= m < tv.len() && #[trigger] tv[m].0 == k;
                        assert(nv[m] == tv[m]);
                    } else {
                        assert forall|m: int| 0 <= m < nv.len() implies #[trigger] nv[m].0 != k by {
                            assert(nv[m].0 == tv[m].0 || m == j);
                        }
                    }
                }
            }
            return;
        }
        j += 1;
    }
    let ghost e = (key@, seq![i as int]);
    let mut b: Vec<usize> = Vec::new();
    b.push(i);
    t.push((key, b));
    proof {
        assert(table_view(t@) =~= tv.push(e)) by {
            assert(crate::index::types::ints(b@) =~= seq![i as int]);
        }
        let nv = tv.push(e);
        assert(keys_distinct(nv)) by {
            assert forall|a: int, c: int| 0 <= a < c < nv.len() implies #[trigger] nv[a].0 != #[trigger] nv[c].0 by {
                if c == nv.len() - 1 {
                    assert(nv[a] == tv[a]);
                } else {
                    assert(nv[a] == tv[a] && nv[c] == tv[c]);
                }
            }
        }
        assert(nv.drop_last() =~= tv);
    }
}

/// Set what `key` maps to to `i`, adding the key at the end when it is new.
fn single_set(t: &mut Vec<(String, usize)>, key: String, i: usize)
    requires
        keys_distinct(single_table_view(old(t)@)),
    ensures
        keys_distinct(single_table_view(final(t)@)),
        table_get(single_table_view(final(t)@), key@) == Some(i as int),
        forall|k: Seq<char>| k != key@ ==> #[trigger] table_get(single_table_view(final(t)@), k) == table_get(single_table_view(old(t)@), k),
{
    let ghost tv = single_table_view(t@);
    let mut j: usize = 0;
    while j < t.len()
        invariant
            j <= t.len(),
            tv == single_table_view(t@),
            tv == single_table_view(old(t)@),
            keys_distinct(tv),
            forall|m: int| 0 <= m < j ==> #[trigger] tv[m].0 != key@,
        decreases t.len() - j,
    {
        if str_eq(t[j].0.as_str(), key.as_str()) {
            assert(tv[j as int].0 == key@);
            let ghost old_t = t@;
            let (k0, _) = t.remove(j);
            t.insert(j, (k0, i));
            assert(t@ =~= old_t.update(j as int, (k0, i)));
            let ghost e = (key@, i as int);
            assert(single_table_view(t@) =~= tv.update(j as int, e));
            proof {
                let nv = tv.update(j as int, e);
                assert(keys_distinct(nv)) by {
                    assert forall|a: int, c: int| 0 <= a < c < nv.len() implies #[trigger] nv[a].0 != #[trigger] nv[c].0 by {
                        assert(nv[a].0 == tv[a].0 && nv[c].0 == tv[c].0);
                    }
                }
                lemma_table_get(nv, key@);
                assert(nv[j as int].0 == key@);
                assert forall|k: Seq<char>| k != key@ implies #[trigger] table_get(nv, k) == table_get(tv, k) by {
                    lemma_table_get(nv, k);
                    lemma_table_get(tv, k);
                    if exists|m: int| 0 <= m < tv.len() && #[trigger] tv[m].0 == k {
                        let m = choose|m: int| 0 <= m < tv.len() && #[trigger] tv[m].0 == k;
                        assert(nv[m] == tv[m]);
                    } else {
                        assert forall|m: int| 0 <= m < nv.len() implies #[trigger] nv[m].0 != k by {
                            assert(nv[m].0 == tv[m].0 || m == j);
                        }
                    }
                }
            }
            return;
        }
        j += 1;
    }
    let ghost e = (key@, i as int);
    t.push((key, i));
    proof {
        assert(single_table_view(t@) =~= tv.push(e));
        let nv = tv.push(e);
        assert(keys_distinct(nv)) by {
            assert forall|a: int, c: int| 0 <= a < c < nv.len() implies #[trigger] nv[a].0 != #[trigger] nv[c].0 by {
                if c == nv.len() - 1 {
                    assert(nv[a] == tv[a]);
                } else {
                    assert(nv[a] == tv[a] && nv[c] == tv[c]);
                }
            }
        }
        assert(nv.drop_last() =~= tv);
    }
}

/// Symbol indices by short name.
fn name_table(symbols: &Vec<Symbol>) -> (t: Vec<(String, Vec<usize>)>)
    ensures
        keys_distinct(table_view(t@)),
        forall|k: Seq<char>| #[trigger] table_get(table_view(t@), k)
            == as_bucket(indices_where(symbols@.len(), name_hits(symbols@, k))),
{
    let mut t: Vec<(String, Vec<usize>)> = Vec::new();
    let mut i: usize = 0;
    while i < symbols.len()
        invariant
            i <= symbols.len(),
            keys_distinct(table_view(t@)),
            forall|k: Seq<char>| #[trigger] table_get(table_view(t@), k)
                == as_bucket(indices_where(i as nat, name_hits(symbols@, k))),
        decreases symbols.len() - i,
    {
        let ghost before = table_view(t@);
        let key = crate::text::owned(symbols[i].name.as_str());
        bucket_push(&mut t, key, i);
        assert forall|k: Seq<char>| #[trigger] table_get(table_view(t@), k)
            == as_bucket(indices_where((i + 1) as nat, name_hits(symbols@, k))) by {
            let hit = name_hits(symbols@, k);
            assert(indices_where((i + 1) as nat, hit) == if hit(i as int) { indices_where(i as nat, hit).push(i as int) } else { indices_where(i as nat, hit) });
            if k == symbols@[i as int].name@ {
                assert(table_get(before, k) == as_bucket(indices_where(i as nat, hit)));
                assert(bucket_after(table_get(before, k), i as int) =~= indices_where(i as nat, hit).push(i as int));
            }
        }
        i += 1;
    }
    t
}

/// Symbol indices by defining file.
fn file_table(symbols: &Vec<Symbol>) -> (t: Vec<(String, Vec<usize>)>)
    ensures
        keys_distinct(table_view(t@)),
        forall|k: Seq<char>| #[trigger] table_get(table_view(t@), k)
            == as_bucket(indices_where(symbols@.len(), file_hits(symbols@, k))),
{
    let mut t: Vec<(String, Vec<usize>)> = Vec::new();
    let mut i: usize = 0;
    while i < symbols.len()
        invariant
            i <= symbols.len(),
            keys_distinct(table_view(t@)),
            forall|k: Seq<char>| #[trigger] table_get(table_view(t@), k)
                == as_bucket(indices_where(i as nat, file_hits(symbols@, k))),
        decreases symbols.len() - i,
    {
        let ghost before = table_view(t@);
        let key = crate::text::owned(symbols[i].loc.file.as_str());
        bucket_push(&mut t, key, i);
        assert forall|k: Seq<char>| #[trigger] table_get(table_view(t@), k)
            == as_bucket(indices_where((i + 1) as nat, file_hits(symbols@, k))) by {
            let hit = file_hits(symbols@, k);
            assert(indices_where((i + 1) as nat, hit) == if hit(i as int) { indices_where(i as nat, hit).push(i as int) } else { indices_where(i as nat, hit) });
            if k == symbols@[i as int].loc.file@ {
                assert(table_get(before, k) == as_bucket(indices_where(i as nat, hit)));
                assert(bucket_after(table_get(before, k), i as int) =~= indices_where(i as nat, hit).push(i as int));
            }
        }
        i += 1;
    }
    t
}

/// Symbol index by qualified name; a later symbol replaces an earlier one.
fn qualified_table(symbols: &Vec<Symbol>) -> (t: Vec<(String, usize)>)
    ensures
        keys_distinct(single_table_view(t@)),
        forall|k: Seq<char>| #[trigger] table_get(single_table_view(t@), k)
            == last_where(symbols@.len(), qualified_hits(symbols@, k)),
{
    let mut t: Vec<(String, usize)> = Vec::new();
    let mut i: usize = 0;
    while i < symbols.len()
        invariant
            i <= symbols.len(),
            keys_distinct(single_table_view(t@)),
            forall|k: Seq<char>| #[trigger] table_get(single_table_view(t@), k)
                == last_where(i as nat, qualified_hits(symbols@, k)),
        decreases symbols.len() - i,
    {
        let key = crate::text::owned(symbols[i].qualified_name.as_str());
        single_set(&mut t, key, i);
        assert forall|k: Seq<char>| #[trigger] table_get(single_table_view(t@), k)
            == last_where((i + 1) as nat, qualified_hits(symbols@, k)) by {
            let hit = qualified_hits(symbols@, k);
            assert(last_where((i + 1) as nat, hit) == if hit(i as int) { Some(i as int) } else { last_where(i as nat, hit) });
        }
        i += 1;
    }
    t
}

/// Dependency indices by reference key: each dependency with a non-empty
/// target key under that key, and a call through a path also under its
/// owner's key, filed first.
fn reverse_table(deps: &Vec<Dependency>) -> (t: Vec<(String, Vec<usize>)>)
    ensures
        keys_distinct(table_view(t@)),
        forall|k: Seq<char>| #[trigger] table_get(table_view(t@), k)
            == as_bucket(indices_where(deps@.len(), reverse_hits(deps@, k))),
{
    let mut t: Vec<(String, Vec<usize>)> = Vec::new();
    let mut i: usize = 0;
    while i < deps.len()
        invariant
            i <= deps.len(),
            keys_distinct(table_view(t@)),
            forall|k: Seq<char>| #[trigger] table_get(table_view(t@), k)
                == as_bucket(indices_where(i as nat, reverse_hits(deps@, k))),
        decreases deps.len() - i,
    {
        let ghost before = table_view(t@);
        let d = &deps[i];
        let key = crate::ir::names::dep_target_key(d.to_name.as_str());
        let ghost dk = key@;
        let nonempty = chars_of(key.as_str()).len() > 0;
        let mut owner_key: Option<String> = None;
        if nonempty {
            if d.kind == DepKind::Call {
                match crate::ir::names::dep_qualifier_key(d.to_name.as_str()) {
                    Some(o) => {
                        if !str_eq(o.as_str(), key.as_str()) {
                            owner_key = Some(o);
                        }
                    },
                    None => {},
                }
            }
        }
        let ghost mid = before;
        match owner_key {
            Some(o) => {
                let ghost ok = o@;
                bucket_push(&mut t, o, i);
                proof {
                    mid = table_view(t@);
                    assert(ok != dk);
                }
            },
            None => {},
        }
        let ghost mid2 = table_view(t@);
        if nonempty {
            bucket_push(&mut t, key, i);
        }
        assert forall|k: Seq<char>| #[trigger] table_get(table_view(t@), k)
            == as_bucket(indices_where((i + 1) as nat, reverse_hits(deps@, k))) by {
            let hit = reverse_hits(deps@, k);
            assert(indices_where((i + 1) as nat, hit) == if hit(i as int) { indices_where(i as nat, hit).push(i as int) } else { indices_where(i as nat, hit) });
            assert(table_get(before, k) == as_bucket(indices_where(i as nat, hit)));
            if hit(i as int) {
                assert(bucket_after(table_get(before, k), i as int) =~= indices_where(i as nat, hit).push(i as int));
            }
        }
        i += 1;
    }
    t
}

/// An index of these symbols and dependencies, with its lookup tables.
pub fn assemble(version: u32, symbols: Vec<Symbol>, deps: Vec<Dependency>) -> (r: Index)
    ensures
        r.version == version,
        r.symbols@ == symbols@,
        r.deps@ == deps@,
        lookups_consistent(r),
{
    let name_lookup = name_table(&symbols);
    let file_lookup = file_table(&symbols);
    let qualified_lookup = qualified_table(&symbols);
    let reverse_deps = reverse_table(&deps);
    Index { version, symbols, deps, name_lookup, file_lookup, qualified_lookup, reverse_deps }
}

/// Build an [`Index`] from an [`Ir`]: its symbols, and its dependencies with
/// the derived type-reference dependencies merged in, and the lookup tables
/// over both.
pub fn build(ir: &Ir) -> (r: Index)
    ensures
        r.version == INDEX_VERSION,
        lookups_consistent(r),
        r.symbols@.len() == ir.symbols@.len(),
        forall|i: int| 0 <= i < ir.symbols@.len() ==> same_symbol(#[trigger] r.symbols@[i], ir.symbols@[i]),
        dep_tuples(r.deps@) == merged_deps(ir.symbols@, dep_tuples(ir.dependencies@), type_deps_spec(ir.symbols@)),
{
    let derived = type_deps(&ir.symbols);
    let deps = with_type_deps(&ir.symbols, &ir.dependencies, &derived);
    let symbols = clone_symbols(&ir.symbols);
    assemble(INDEX_VERSION, symbols, deps)
}

} // verus!

verus! {

proof fn lemma_type_names_contains(ss: Seq<Symbol>, m: int)
    requires
        0 <= m < ss.len(),
        is_type_kind_spec(ss[m].kind@),
    ensures
        type_names(ss).contains(ss[m].name@),
    decreases ss.len(),
{
    reveal(Seq::filter);
    let d = ss.drop_last();
    let last = ss.last();
    if is_type_kind_spec(last.kind@) {
        assert(type_names(ss) =~= type_names(d).push(last.name@));
    } else {
        assert(type_names(ss) =~= type_names(d));
    }
    if m == ss.len() - 1 {
        assert(type_names(ss).last() == last.name@);
    } else {
        assert(d[m] == ss[m]);
        lemma_type_names_contains(d, m);
        let x = choose|x: int| 0 <= x < type_names(d).len() && type_names(d)[x] == ss[m].name@;
        assert(type_names(ss)[x] == ss[m].name@);
    }
}

proof fn lemma_token_cands_contains(
    qn: Seq<char>,
    loc: SourceLoc,
    k: DepKind,
    toks: Seq<Seq<char>>,
    names: Seq<Seq<char>>,
    m: int,
)
    requires
        0 <= m < toks.len(),
        is_project_type(toks[m], names),
    ensures
        token_cands(qn, loc, k, toks, names).contains((qn, toks[m], k, loc)),
    decreases toks.len(),
{
    let d = toks.drop_last();
    let prev = token_cands(qn, loc, k, d, names);
    if m == toks.len() - 1 {
        assert(token_cands(qn, loc, k, toks, names) == prev + seq![(qn, toks[m], k, loc)]);
        assert(token_cands(qn, loc, k, toks, names)[prev.len() as int] == (qn, toks[m], k, loc));
    } else {
        assert(d[m] == toks[m]);
        lemma_token_cands_contains(qn, loc, k, d, names, m);
        let x = choose|x: int| 0 <= x < prev.len() && prev[x] == (qn, toks[m], k, loc);
        assert(token_cands(qn, loc, k, toks, names)[x] == prev[x]);
    }
}

proof fn lemma_type_cands_contains(
    qn: Seq<char>,
    loc: SourceLoc,
    k: DepKind,
    tys: Seq<Seq<char>>,
    names: Seq<Seq<char>>,
    j: int,
    c: (Seq<char>, Seq<char>, DepKind, SourceLoc),
)
    requires
        0 <= j < tys.len(),
        token_cands(qn, loc, k, type_tokens_spec(tys[j]), names).contains(c),
    ensures
        type_cands(qn, loc, k, tys, names).contains(c),
    decreases tys.len(),
{
    let d = tys.drop_last();
    let prev = type_cands(qn, loc, k, d, names);
    if j == tys.len() - 1 {
        let tc = token_cands(qn, loc, k, type_tokens_spec(tys[j]), names);
        let x = choose|x: int| 0 <= x < tc.len() && tc[x] == c;
        assert(type_cands(qn, loc, k, tys, names)[prev.len() + x] == c);
    } else {
        assert(d[j] == tys[j]);
        lemma_type_cands_contains(qn, loc, k, d, names, j, c);
        let x = choose|x: int| 0 <= x < prev.len() && prev[x] == c;
        assert(type_cands(qn, loc, k, tys, names)[x] == c);
    }
}

proof fn lemma_all_cands_contains(
    ss: Seq<Symbol>,
    names: Seq<Seq<char>>,
    i: int,
    c: (Seq<char>, Seq<char>, DepKind, SourceLoc),
)
    requires
        0 <= i < ss.len(),
        sym_cands(ss[i], names).contains(c),
    ensures
        all_cands(ss, names).contains(c),
    decreases ss.len(),
{
    let d = ss.drop_last();
    let prev = all_cands(d, names);
    if i == ss.len() - 1 {
        let sc = sym_cands(ss[i], names);
        let x = choose|x: int| 0 <= x < sc.len() && sc[x] == c;
        assert(all_cands(ss, names)[prev.len() + x] == c);
    } else {
        assert(d[i] == ss[i]);
        lemma_all_cands_contains(d, names, i, c);
        let x = choose|x: int| 0 <= x < prev.len() && prev[x] == c;
        assert(all_cands(ss, names)[x] == c);
    }
}

/// Dropping repeated pairs keeps at least one dependency of each pair.
proof fn lemma_dedup_keeps_pair(c: Seq<(Seq<char>, Seq<char>, DepKind, SourceLoc)>, x: (Seq<char>, Seq<char>, DepKind, SourceLoc))
    requires
        c.contains(x),
    ensures
        exists|y: (Seq<char>, Seq<char>, DepKind, SourceLoc)| dedup_deps(c).contains(y) && #[trigger] pair_of(y) == pair_of(x),
    decreases c.len(),
{
    let d = c.drop_last();
    if c.last() == x {
        if pairs(d).contains(pair_of(x)) {
            let k = choose|k: int| 0 <= k < pairs(d).len() && pairs(d)[k] == pair_of(x);
            assert(d.contains(d[k]));
            lemma_dedup_keeps_pair(d, d[k]);
        } else {
            assert(dedup_deps(c) == dedup_deps(d).push(x));
            assert(dedup_deps(c)[dedup_deps(d).len() as int] == x);
            assert(pair_of(x) == pair_of(x));
        }
    } else {
        let k = choose|k: int| 0 <= k < c.len() && c[k] == x;
        assert(k < d.len());
        assert(d[k] == x);
        lemma_dedup_keeps_pair(d, x);
        let y = choose|y: (Seq<char>, Seq<char>, DepKind, SourceLoc)| dedup_deps(d).contains(y) && #[trigger] pair_of(y) == pair_of(x);
        let z = choose|z: int| 0 <= z < dedup_deps(d).len() && dedup_deps(d)[z] == y;
        if pairs(d).contains(pair_of(c.last())) {
        } else {
            assert(dedup_deps(c)[z] == y);
        }
    }
}

proof fn lemma_token_cands_shape(
    qn: Seq<char>,
    loc: SourceLoc,
    k: DepKind,
    toks: Seq<Seq<char>>,
    names: Seq<Seq<char>>,
)
    ensures
        forall|x: int| 0 <= x < token_cands(qn, loc, k, toks, names).len() ==> (#[trigger] token_cands(qn, loc, k, toks, names)[x]).0
            == qn && token_cands(qn, loc, k, toks, names)[x].2 == k && is_project_type(token_cands(qn, loc, k, toks, names)[x].1, names),
    decreases toks.len(),
{
    if toks.len() > 0 {
        lemma_token_cands_shape(qn, loc, k, toks.drop_last(), names);
        let prev = token_cands(qn, loc, k, toks.drop_last(), names);
        assert forall|x: int| 0 <= x < token_cands(qn, loc, k, toks, names).len() implies (#[trigger] token_cands(qn, loc, k, toks, names)[x]).0
            == qn && token_cands(qn, loc, k, toks, names)[x].2 == k && is_project_type(token_cands(qn, loc, k, toks, names)[x].1, names) by {
            if x < prev.len() {
                assert(token_cands(qn, loc, k, toks, names)[x] == prev[x]);
            }
        }
    }
}

proof fn lemma_type_cands_shape(
    qn: Seq<char>,
    loc: SourceLoc,
    k: DepKind,
    tys: Seq<Seq<char>>,
    names: Seq<Seq<char>>,
)
    ensures
        forall|x: int| 0 <= x < type_cands(qn, loc, k, tys, names).len() ==> (#[trigger] type_cands(qn, loc, k, tys, names)[x]).0
            == qn && type_cands(qn, loc, k, tys, names)[x].2 == k && is_project_type(type_cands(qn, loc, k, tys, names)[x].1, names),
    decreases tys.len(),
{
    if tys.len() > 0 {
        lemma_type_cands_shape(qn, loc, k, tys.drop_last(), names);
        let prev = type_cands(qn, loc, k, tys.drop_last(), names);
        let tc = token_cands(qn, loc, k, type_tokens_spec(tys.last()), names);
        lemma_token_cands_shape(qn, loc, k, type_tokens_spec(tys.last()), names);
        assert forall|x: int| 0 <= x < type_cands(qn, loc, k, tys, names).len() implies (#[trigger] type_cands(qn, loc, k, tys, names)[x]).0
            == qn && type_cands(qn, loc, k, tys, names)[x].2 == k && is_project_type(type_cands(qn, loc, k, tys, names)[x].1, names) by {
            if x < prev.len() {
                assert(type_cands(qn, loc, k, tys, names)[x] == prev[x]);
            } else {
                assert(type_cands(qn, loc, k, tys, names)[x] == tc[x - prev.len()]);
            }
        }
    }
}

/// Each candidate comes from some symbol: it starts at that symbol's
/// qualified name and has the kind that symbol's types give.
proof fn lemma_all_cands_origin(ss: Seq<Symbol>, names: Seq<Seq<char>>, x: int)
    requires
        0 <= x < all_cands(ss, names).len(),
    ensures
        exists|t: int| 0 <= t < ss.len() && #[trigger] ss[t].qualified_name@ == all_cands(ss, names)[x].0
            && sym_types(ss[t]).2 && sym_types(ss[t]).0 == all_cands(ss, names)[x].2,
        is_project_type(all_cands(ss, names)[x].1, names),
    decreases ss.len(),
{
    let d = ss.drop_last();
    let prev = all_cands(d, names);
    if x < prev.len() {
        assert(all_cands(ss, names)[x] == prev[x]);
        lemma_all_cands_origin(d, names, x);
        let t = choose|t: int| 0 <= t < d.len() && #[trigger] d[t].qualified_name@ == prev[x].0 && sym_types(d[t]).2
            && sym_types(d[t]).0 == prev[x].2;
        assert(ss[t] == d[t]);
    } else {
        let s = ss.last();
        let sc = sym_cands(s, names);
        assert(all_cands(ss, names)[x] == sc[x - prev.len()]);
        let (k, tys, ok) = sym_types(s);
        if ok {
            lemma_type_cands_shape(s.qualified_name@, s.loc, k, tys, names);
        }
        assert(ss[ss.len() - 1] == s);
    }
}

proof fn lemma_dedup_within(c: Seq<(Seq<char>, Seq<char>, DepKind, SourceLoc)>, y: (Seq<char>, Seq<char>, DepKind, SourceLoc))
    requires
        dedup_deps(c).contains(y),
    ensures
        c.contains(y),
    decreases c.len(),
{
    let d = c.drop_last();
    if pairs(d).contains(pair_of(c.last())) {
        lemma_dedup_within(d, y);
        let k = choose|k: int| 0 <= k < d.len() && d[k] == y;
        assert(c[k] == y);
    } else {
        let dd = dedup_deps(d);
        let k = choose|k: int| 0 <= k < dedup_deps(c).len() && dedup_deps(c)[k] == y;
        if k < dd.len() {
            assert(dd[k] == y);
            lemma_dedup_within(d, y);
            let j = choose|j: int| 0 <= j < d.len() && d[j] == y;
            assert(c[j] == y);
        } else {
            assert(y == c.last());
            assert(c[c.len() - 1] == y);
        }
    }
}

/// Every parameter type of a callable (`fn`, `func`, `function`, `def`,
/// `method`) gives a reference to each project type it names: for each
/// token of the parameter's type whose last path segment is the name of a
/// type-kind symbol, the derived dependencies hold one from the callable's
/// qualified name to that token.
#[verifier::spinoff_prover]
pub proof fn lemma_param_types_referenced(ss: Seq<Symbol>, i: int, j: int, k: int, m: int)
    requires
        0 <= i < ss.len(),
        is_callable_kind_spec(ss[i].kind@) || ss[i].kind@ == "def"@,
        0 <= j < ss[i].params@.len(),
        0 <= k < type_tokens_spec(ss[i].params@[j].type_str@).len(),
        0 <= m < ss.len(),
        is_type_kind_spec(ss[m].kind@),
        path_segments_spec(type_tokens_spec(ss[i].params@[j].type_str@)[k]).len() > 0,
        path_segments_spec(type_tokens_spec(ss[i].params@[j].type_str@)[k]).last() == ss[m].name@,
    ensures
        exists|d: (Seq<char>, Seq<char>, DepKind, SourceLoc)|
            #[trigger] type_deps_spec(ss).contains(d) && d.0 == ss[i].qualified_name@ && d.1 == type_tokens_spec(
                ss[i].params@[j].type_str@,
            )[k],
        (forall|t: int| 0 <= t < ss.len() && #[trigger] ss[t].qualified_name@ == ss[i].qualified_name@ ==> (
            is_callable_kind_spec(ss[t].kind@) || ss[t].kind@ == "def"@ || !is_type_kind_spec(ss[t].kind@)))
            ==> forall|d: (Seq<char>, Seq<char>, DepKind, SourceLoc)|
            #[trigger] type_deps_spec(ss).contains(d) && d.0 == ss[i].qualified_name@ ==> d.2 == DepKind::TypeRef,
{
    let s = ss[i];
    let names = type_names(ss);
    let toks = type_tokens_spec(s.params@[j].type_str@);
    let tok = toks[k];
    lemma_type_names_contains(ss, m);
    assert(is_project_type(tok, names));
    let tys = s.params@.map_values(|p: Param| p.type_str@) + match s.return_type {
        Some(r) => seq![r@],
        None => seq![],
    };
    assert(sym_types(s) == (DepKind::TypeRef, tys, true));
    assert(tys[j] == s.params@[j].type_str@);
    let c = (s.qualified_name@, tok, DepKind::TypeRef, s.loc);
    lemma_token_cands_contains(s.qualified_name@, s.loc, DepKind::TypeRef, toks, names, k);
    lemma_type_cands_contains(s.qualified_name@, s.loc, DepKind::TypeRef, tys, names, j, c);
    assert(sym_cands(s, names) == type_cands(s.qualified_name@, s.loc, DepKind::TypeRef, tys, names));
    lemma_all_cands_contains(ss, names, i, c);
    assert(names.len() > 0);
    lemma_dedup_keeps_pair(all_cands(ss, names), c);
    let y = choose|y: (Seq<char>, Seq<char>, DepKind, SourceLoc)| dedup_deps(all_cands(ss, names)).contains(y) && #[trigger] pair_of(y) == pair_of(c);
    assert(type_deps_spec(ss).contains(y));
    if forall|t: int| 0 <= t < ss.len() && #[trigger] ss[t].qualified_name@ == ss[i].qualified_name@ ==> (
        is_callable_kind_spec(ss[t].kind@) || ss[t].kind@ == "def"@ || !is_type_kind_spec(ss[t].kind@)) {
        assert forall|d: (Seq<char>, Seq<char>, DepKind, SourceLoc)|
            #[trigger] type_deps_spec(ss).contains(d) && d.0 == ss[i].qualified_name@ implies d.2 == DepKind::TypeRef by {
            lemma_dedup_within(all_cands(ss, names), d);
            let x = choose|x: int| 0 <= x < all_cands(ss, names).len() && all_cands(ss, names)[x] == d;
            lemma_all_cands_origin(ss, names, x);
            let t = choose|t: int| 0 <= t < ss.len() && #[trigger] ss[t].qualified_name@ == all_cands(ss, names)[x].0
                && sym_types(ss[t]).2 && sym_types(ss[t]).0 == all_cands(ss, names)[x].2;
        }
    }
}

} // verus!

verus! {

proof fn lemma_type_names_origin(ss: Seq<Symbol>, x: Seq<char>)
    requires
        type_names(ss).contains(x),
    ensures
        exists|m: int| 0 <= m < ss.len() && is_type_kind_spec(ss[m].kind@) && #[trigger] ss[m].name@ == x,
    decreases ss.len(),
{
    reveal(Seq::filter);
    let d = ss.drop_last();
    let last = ss.last();
    if is_type_kind_spec(last.kind@) {
        assert(type_names(ss) =~= type_names(d).push(last.name@));
    } else {
        assert(type_names(ss) =~= type_names(d));
    }
    if is_type_kind_spec(last.kind@) && x == last.name@ {
        assert(ss[ss.len() - 1].name@ == x);
    } else {
        let k = choose|k: int| 0 <= k < type_names(ss).len() && type_names(ss)[k] == x;
        assert(type_names(d)[k] == x);
        lemma_type_names_origin(d, x);
        let m = choose|m: int| 0 <= m < d.len() && is_type_kind_spec(d[m].kind@) && #[trigger] d[m].name@ == x;
        assert(ss[m] == d[m]);
    }
}

/// Every derived dependency is backed by the symbols: it starts at some
/// symbol's qualified name, a `TypeRef` at a callable (`fn`, `func`,
/// `function`, `def`, `method`) and a `FieldType` at a type with fields,
/// and it ends at a token whose last path segment names a type-kind symbol.
#[verifier::spinoff_prover]
pub proof fn lemma_type_deps_backed(ss: Seq<Symbol>, d: (Seq<char>, Seq<char>, DepKind, SourceLoc))
    requires
        type_deps_spec(ss).contains(d),
    ensures
        exists|t: int| 0 <= t < ss.len() && #[trigger] ss[t].qualified_name@ == d.0 && (d.2 == DepKind::TypeRef ==> (
            is_callable_kind_spec(ss[t].kind@) || ss[t].kind@ == "def"@)) && (d.2 == DepKind::FieldType ==> (
            is_type_kind_spec(ss[t].kind@) && ss[t].fields@.len() > 0)) && (d.2 == DepKind::TypeRef || d.2
            == DepKind::FieldType),
        path_segments_spec(d.1).len() > 0,
        exists|m: int| 0 <= m < ss.len() && is_type_kind_spec(ss[m].kind@) && #[trigger] ss[m].name@ == path_segments_spec(
            d.1,
        ).last(),
{
    let names = type_names(ss);
    assert(names.len() > 0);
    lemma_dedup_within(all_cands(ss, names), d);
    let x = choose|x: int| 0 <= x < all_cands(ss, names).len() && all_cands(ss, names)[x] == d;
    lemma_all_cands_origin(ss, names, x);
    let t = choose|t: int| 0 <= t < ss.len() && #[trigger] ss[t].qualified_name@ == all_cands(ss, names)[x].0
        && sym_types(ss[t]).2 && sym_types(ss[t]).0 == all_cands(ss, names)[x].2;
    assert(ss[t].qualified_name@ == d.0);
    lemma_type_names_origin(ss, path_segments_spec(d.1).last());
}

/// A callable's return type names its project types like its parameters
/// do: each token of it whose last path segment is the name of a type-kind
/// symbol gives a dependency from the callable to that token.
#[verifier::spinoff_prover]
pub proof fn lemma_return_type_referenced(ss: Seq<Symbol>, i: int, k: int, m: int)
    requires
        0 <= i < ss.len(),
        is_callable_kind_spec(ss[i].kind@) || ss[i].kind@ == "def"@,
        ss[i].return_type is Some,
        0 <= k < type_tokens_spec(ss[i].return_type->Some_0@).len(),
        0 <= m < ss.len(),
        is_type_kind_spec(ss[m].kind@),
        path_segments_spec(type_tokens_spec(ss[i].return_type->Some_0@)[k]).len() > 0,
        path_segments_spec(type_tokens_spec(ss[i].return_type->Some_0@)[k]).last() == ss[m].name@,
    ensures
        exists|d: (Seq<char>, Seq<char>, DepKind, SourceLoc)|
            #[trigger] type_deps_spec(ss).contains(d) && d.0 == ss[i].qualified_name@ && d.1 == type_tokens_spec(
                ss[i].return_type->Some_0@,
            )[k],
{
    let s = ss[i];
    let names = type_names(ss);
    let toks = type_tokens_spec(s.return_type->Some_0@);
    let tok = toks[k];
    lemma_type_names_contains(ss, m);
    let tys = s.params@.map_values(|p: Param| p.type_str@) + seq![s.return_type->Some_0@];
    assert(sym_types(s) == (DepKind::TypeRef, tys, true));
    let j = s.params@.len() as int;
    assert(tys[j] == s.return_type->Some_0@);
    let c = (s.qualified_name@, tok, DepKind::TypeRef, s.loc);
    lemma_token_cands_contains(s.qualified_name@, s.loc, DepKind::TypeRef, toks, names, k);
    lemma_type_cands_contains(s.qualified_name@, s.loc, DepKind::TypeRef, tys, names, j, c);
    lemma_all_cands_contains(ss, names, i, c);
    lemma_dedup_keeps_pair(all_cands(ss, names), c);
    let y = choose|y: (Seq<char>, Seq<char>, DepKind, SourceLoc)| dedup_deps(all_cands(ss, names)).contains(y) && #[trigger] pair_of(y) == pair_of(c);
    assert(type_deps_spec(ss).contains(y));
}

/// A type's field types name its project types: for a type-kind symbol
/// that is not also a callable, each token of a field's type whose last
/// path segment is the name of a type-kind symbol gives a dependency from
/// the type to that token.
#[verifier::spinoff_prover]
pub proof fn lemma_field_types_referenced(ss: Seq<Symbol>, i: int, j: int, k: int, m: int)
    requires
        0 <= i < ss.len(),
        is_type_kind_spec(ss[i].kind@),
        !(is_callable_kind_spec(ss[i].kind@) || ss[i].kind@ == "def"@),
        0 <= j < ss[i].fields@.len(),
        0 <= k < type_tokens_spec(ss[i].fields@[j].type_str@).len(),
        0 <= m < ss.len(),
        is_type_kind_spec(ss[m].kind@),
        path_segments_spec(type_tokens_spec(ss[i].fields@[j].type_str@)[k]).len() > 0,
        path_segments_spec(type_tokens_spec(ss[i].fields@[j].type_str@)[k]).last() == ss[m].name@,
    ensures
        exists|d: (Seq<char>, Seq<char>, DepKind, SourceLoc)|
            #[trigger] type_deps_spec(ss).contains(d) && d.0 == ss[i].qualified_name@ && d.1 == type_tokens_spec(
                ss[i].fields@[j].type_str@,
            )[k],
{
    let s = ss[i];
    let names = type_names(ss);
    let toks = type_tokens_spec(s.fields@[j].type_str@);
    let tok = toks[k];
    lemma_type_names_contains(ss, m);
    let tys = s.fields@.map_values(|f: Field| f.type_str@);
    assert(sym_types(s) == (DepKind::FieldType, tys, true));
    let c = (s.qualified_name@, tok, DepKind::FieldType, s.loc);
    lemma_token_cands_contains(s.qualified_name@, s.loc, DepKind::FieldType, toks, names, k);
    lemma_type_cands_contains(s.qualified_name@, s.loc, DepKind::FieldType, tys, names, j, c);
    lemma_all_cands_contains(ss, names, i, c);
    lemma_dedup_keeps_pair(all_cands(ss, names), c);
    let y = choose|y: (Seq<char>, Seq<char>, DepKind, SourceLoc)| dedup_deps(all_cands(ss, names)).contains(y) && #[trigger] pair_of(y) == pair_of(c);
    assert(type_deps_spec(ss).contains(y));
}

} // verus!
