//! Helpers shared by the language modules: the callee text recorded in a
//! call dependency, and the ordering and de-duplication of one function's
//! calls.

use vstd::prelude::*;

use crate::ir::names::{strip_generics, strip_generics_spec};
use crate::ir::types::{DepKind, Dependency, Field, Ir, Param, SourceLoc, Visibility};
use crate::split::{remove_ws, without_ws};
use crate::text::{owned, str_eq};

verus! {

/// Callee text with generics removed and all whitespace dropped; `None`
/// when nothing remains.
pub open spec fn call_target_spec(text: Seq<char>) -> Option<Seq<char>> {
    let cleaned = remove_ws(strip_generics_spec(text));
    if cleaned.len() == 0 {
        None
    } else {
        Some(cleaned)
    }
}

/// Callee text as recorded in a `Call` dep: generics / turbofish removed
/// (`collect::<Vec<_>>` → `collect`, `Vec::<u8>::new` → `Vec::new`) and
/// whitespace removed. Returns `None` if nothing usable remains.
pub fn call_target(text: &str) -> (r: Option<String>)
    ensures
        match r {
            Some(t) => call_target_spec(text@) == Some(t@),
            None => call_target_spec(text@) is None,
        },
{
    let g = strip_generics(text);
    let cleaned = without_ws(g.as_str());
    if cleaned.as_str().is_empty() {
        None
    } else {
        Some(cleaned)
    }
}


/// A parameter as (name, type).
pub open spec fn params_view(v: Seq<Param>) -> Seq<(Seq<char>, Seq<char>)> {
    v.map_values(|p: Param| (p.name@, p.type_str@))
}

/// A field as (name, type, visibility).
pub open spec fn fields_view(v: Seq<Field>) -> Seq<(Seq<char>, Seq<char>, Visibility)> {
    v.map_values(|f: Field| (f.name@, f.type_str@, f.visibility))
}

/// A call site: callee text and where the call is.
pub open spec fn calls_view(s: Seq<(String, SourceLoc)>) -> Seq<(Seq<char>, SourceLoc)> {
    s.map_values(|c: (String, SourceLoc)| (c.0@, c.1))
}

/// Must a call at `a` come after one at `b` (by line, then column)?
pub open spec fn loc_after(a: SourceLoc, b: SourceLoc) -> bool {
    a.line > b.line || (a.line == b.line && a.col > b.col)
}

/// `x` inserted into `s` after every call that is not later than it.
pub open spec fn insert_call(s: Seq<(Seq<char>, SourceLoc)>, x: (Seq<char>, SourceLoc)) -> Seq<(Seq<char>, SourceLoc)>
    decreases s.len(),
{
    if s.len() == 0 {
        seq![x]
    } else if loc_after(s.last().1, x.1) {
        insert_call(s.drop_last(), x).push(s.last())
    } else {
        s.push(x)
    }
}

/// The calls stably sorted by source position.
pub open spec fn sort_calls(s: Seq<(Seq<char>, SourceLoc)>) -> Seq<(Seq<char>, SourceLoc)>
    decreases s.len(),
{
    if s.len() == 0 {
        seq![]
    } else {
        insert_call(sort_calls(s.drop_last()), s.last())
    }
}

/// The callee names of a list of calls.
pub open spec fn callee_names(s: Seq<(Seq<char>, SourceLoc)>) -> Seq<Seq<char>> {
    s.map_values(|c: (Seq<char>, SourceLoc)| c.0)
}

/// The calls whose callee has not occurred earlier in the list.
pub open spec fn first_per_callee(s: Seq<(Seq<char>, SourceLoc)>) -> Seq<(Seq<char>, SourceLoc)>
    decreases s.len(),
{
    if s.len() == 0 {
        seq![]
    } else if callee_names(s.drop_last()).contains(s.last().0) {
        first_per_callee(s.drop_last())
    } else {
        first_per_callee(s.drop_last()).push(s.last())
    }
}

/// The call dependencies recorded for one function body.
pub open spec fn call_deps_spec(calls: Seq<(Seq<char>, SourceLoc)>) -> Seq<(Seq<char>, SourceLoc)> {
    first_per_callee(sort_calls(calls))
}

/// Is `d` the `Call` dependency from `from` for the call `c`?
pub open spec fn is_call_dep(d: Dependency, from: Seq<char>, c: (Seq<char>, SourceLoc)) -> bool {
    &&& d.from_qualified@ == from
    &&& d.to_name@ == c.0
    &&& d.kind == DepKind::Call
    &&& d.loc == c.1
}

fn sort_by_position(calls: Vec<(String, SourceLoc)>) -> (r: Vec<(String, SourceLoc)>)
    ensures
        calls_view(r@) == sort_calls(calls_view(calls@)),
{
    let ghost cv = calls_view(calls@);
    let mut calls = calls;
    let mut out: Vec<(String, SourceLoc)> = Vec::new();
    let n = calls.len();
    let mut i: usize = 0;
    assert(cv.skip(0) =~= cv);
    assert(calls_view(out@) =~= sort_calls(cv.take(0)));
    while i < n
        invariant
            i <= n,
            n == cv.len(),
            calls.len() == n - i,
            calls_view(calls@) == cv.skip(i as int),
            calls_view(out@) == sort_calls(cv.take(i as int)),
        decreases n - i,
    {
        let ghost cs = calls@;
        let x = calls.remove(0);
        proof {
            assert(calls@ =~= cs.skip(1));
            assert(calls_view(calls@) =~= calls_view(cs).skip(1));
            assert(cv.skip(i as int)[0] == cv[i as int]);
            assert(calls_view(calls@) =~= cv.skip(i + 1));
            assert(cv.take(i + 1).drop_last() =~= cv.take(i as int));
            assert(cv.take(i + 1).last() == cv[i as int]);
        }
        let ghost o = calls_view(out@);
        let ghost xv = (x.0@, x.1);
        assert(xv == cv[i as int]);
        let mut j = out.len();
        assert(o.take(j as int) =~= o);
        assert(o.skip(j as int) =~= Seq::<(Seq<char>, SourceLoc)>::empty());
        while j > 0 && (out[j - 1].1.line > x.1.line || (out[j - 1].1.line == x.1.line && out[j - 1].1.col > x.1.col))
            invariant
                j <= out.len(),
                o == calls_view(out@),
                xv == (x.0@, x.1),
                insert_call(o, xv) == insert_call(o.take(j as int), xv) + o.skip(j as int),
            decreases j,
        {
            assert(o.take(j as int).last() == o[j - 1]);
            assert(o.take(j as int).drop_last() =~= o.take(j - 1));
            assert(o.skip(j - 1) =~= seq![o[j - 1]] + o.skip(j as int));
            assert(insert_call(o.take(j - 1), xv).push(o[j - 1]) + o.skip(j as int) =~= insert_call(o.take(j - 1), xv) + o.skip(j - 1));
            j -= 1;
        }
        proof {
            if j > 0 {
                assert(o.take(j as int).last() == o[j - 1]);
            }
            assert(insert_call(o.take(j as int), xv) == o.take(j as int).push(xv));
        }
        out.insert(j, x);
        assert(calls_view(out@) =~= o.take(j as int).push(xv) + o.skip(j as int));
        i += 1;
    }
    assert(cv.take(n as int) =~= cv);
    out
}

fn contains_name(seen: &Vec<String>, name: &str) -> (r: bool)
    ensures
        r == crate::text::views(seen@).contains(name@),
{
    let mut i: usize = 0;
    while i < seen.len()
        invariant
            i <= seen.len(),
            forall|j: int| 0 <= j < i ==> seen@[j]@ != name@,
        decreases seen.len() - i,
    {
        if str_eq(seen[i].as_str(), name) {
            assert(crate::text::views(seen@)[i as int] == name@);
            return true;
        }
        i += 1;
    }
    proof {
        if crate::text::views(seen@).contains(name@) {
            let k = choose|k: int| 0 <= k < seen@.len() && crate::text::views(seen@)[k] == name@;
            assert(seen@[k]@ == name@);
        }
    }
    false
}

/// Emit `Call` dependencies for one function body.
///
/// `calls` holds `(callee, loc)` pairs in any order. They are sorted by source
/// position and deduplicated per callee, keeping the first occurrence, so each
/// `(from_qualified, to_name)` appears once per function.
pub fn push_call_deps(ir: &mut Ir, from_qualified: &str, calls: Vec<(String, SourceLoc)>)
    ensures
        final(ir).symbols@ == old(ir).symbols@,
        final(ir).dependencies@.len() == old(ir).dependencies@.len() + call_deps_spec(calls_view(calls@)).len(),
        forall|i: int| 0 <= i < old(ir).dependencies@.len() ==> #[trigger] final(ir).dependencies@[i] == old(ir).dependencies@[i],
        forall|k: int| 0 <= k < call_deps_spec(calls_view(calls@)).len() ==> is_call_dep(
            #[trigger] final(ir).dependencies@[old(ir).dependencies@.len() + k],
            from_qualified@,
            call_deps_spec(calls_view(calls@))[k],
        ),
{
    let ghost base = ir.dependencies@;
    let sorted = sort_by_position(calls);
    let ghost sv = calls_view(sorted@);
    let mut seen: Vec<String> = Vec::new();
    let mut i: usize = 0;
    assert(sv.take(0) =~= Seq::<(Seq<char>, SourceLoc)>::empty());
    assert(crate::text::views(seen@) =~= callee_names(sv.take(0)));
    while i < sorted.len()
        invariant
            i <= sorted.len(),
            sv == calls_view(sorted@),
            ir.symbols@ == old(ir).symbols@,
            forall|n: Seq<char>| crate::text::views(seen@).contains(n) <==> callee_names(sv.take(i as int)).contains(n),
            ir.dependencies@.len() == base.len() + first_per_callee(sv.take(i as int)).len(),
            forall|j: int| 0 <= j < base.len() ==> #[trigger] ir.dependencies@[j] == base[j],
            forall|k: int| 0 <= k < first_per_callee(sv.take(i as int)).len() ==> is_call_dep(
                #[trigger] ir.dependencies@[base.len() + k],
                from_qualified@,
                first_per_callee(sv.take(i as int))[k],
            ),
        decreases sorted.len() - i,
    {
        proof {
            crate::text::lemma_take_push(sv, i as int);
        }
        let name = &sorted[i].0;
        let ghost before_seen = crate::text::views(seen@);
        assert(sv[i as int] == (name@, sorted@[i as int].1));
        assert(callee_names(sv.take(i + 1)) =~= callee_names(sv.take(i as int)).push(name@));
        proof {
            assert forall|n: Seq<char>| #[trigger] callee_names(sv.take(i + 1)).contains(n) <==> (callee_names(sv.take(i as int)).contains(n) || n == name@) by {
                crate::text::lemma_push_contains(callee_names(sv.take(i as int)), name@, n);
            }
        }
        if !contains_name(&seen, name.as_str()) {
            seen.push(name.clone());
            assert(crate::text::views(seen@) =~= before_seen.push(name@));
            proof {
                assert forall|n: Seq<char>| #[trigger] crate::text::views(seen@).contains(n) <==> (before_seen.contains(n) || n == name@) by {
                    crate::text::lemma_push_contains(before_seen, name@, n);
                }
            }
            let ghost before_deps = ir.dependencies@;
            ir.dependencies.push(Dependency {
                from_qualified: owned(from_qualified),
                to_name: name.clone(),
                kind: DepKind::Call,
                loc: sorted[i].1.clone(),
            });
            proof {
                let f = first_per_callee(sv.take(i + 1));
                assert(f == first_per_callee(sv.take(i as int)).push(sv[i as int]));
                assert forall|k: int| 0 <= k < f.len() implies is_call_dep(
                    #[trigger] ir.dependencies@[base.len() + k],
                    from_qualified@,
                    f[k],
                ) by {
                    if k < f.len() - 1 {
                        assert(ir.dependencies@[base.len() + k] == before_deps[base.len() + k]);
                    }
                }
            }
        }
        i += 1;
    }
    assert(sv.take(sorted.len() as int) =~= sv);
}


/// Every call of the list is in the file `path`.
pub open spec fn calls_in_file(s: Seq<(Seq<char>, SourceLoc)>, path: Seq<char>) -> bool {
    forall|i: int| 0 <= i < s.len() ==> (#[trigger] s[i]).1.file@ == path
}

pub proof fn lemma_insert_call_in_file(s: Seq<(Seq<char>, SourceLoc)>, x: (Seq<char>, SourceLoc), path: Seq<char>)
    requires
        calls_in_file(s, path),
        x.1.file@ == path,
    ensures
        calls_in_file(insert_call(s, x), path),
    decreases s.len(),
{
    if s.len() > 0 && loc_after(s.last().1, x.1) {
        assert(calls_in_file(s.drop_last(), path)) by {
            assert forall|i: int| 0 <= i < s.drop_last().len() implies (#[trigger] s.drop_last()[i]).1.file@ == path by {
                assert(s.drop_last()[i] == s[i]);
            }
        }
        lemma_insert_call_in_file(s.drop_last(), x, path);
    }
}

pub proof fn lemma_sorted_calls_in_file(s: Seq<(Seq<char>, SourceLoc)>, path: Seq<char>)
    requires
        calls_in_file(s, path),
    ensures
        calls_in_file(sort_calls(s), path),
        calls_in_file(first_per_callee(sort_calls(s)), path),
    decreases s.len(),
{
    if s.len() > 0 {
        assert(calls_in_file(s.drop_last(), path)) by {
            assert forall|i: int| 0 <= i < s.drop_last().len() implies (#[trigger] s.drop_last()[i]).1.file@ == path by {
                assert(s.drop_last()[i] == s[i]);
            }
        }
        lemma_sorted_calls_in_file(s.drop_last(), path);
        assert(s[s.len() - 1].1.file@ == path);
        lemma_insert_call_in_file(sort_calls(s.drop_last()), s.last(), path);
    }
    lemma_first_per_callee_in_file(sort_calls(s), path);
}

pub proof fn lemma_first_per_callee_in_file(s: Seq<(Seq<char>, SourceLoc)>, path: Seq<char>)
    requires
        calls_in_file(s, path),
    ensures
        calls_in_file(first_per_callee(s), path),
    decreases s.len(),
{
    if s.len() > 0 {
        assert(calls_in_file(s.drop_last(), path)) by {
            assert forall|i: int| 0 <= i < s.drop_last().len() implies (#[trigger] s.drop_last()[i]).1.file@ == path by {
                assert(s.drop_last()[i] == s[i]);
            }
        }
        lemma_first_per_callee_in_file(s.drop_last(), path);
        assert(s[s.len() - 1].1.file@ == path);
    }
}

} // verus!
