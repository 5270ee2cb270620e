//! The `deps` command's logic: the outgoing dependencies of the symbols with
//! a name, grouped by symbol.

use vstd::prelude::*;

use crate::commands::refs::{dep_files, dep_kinds};
use crate::format::path_alias::{alias_header, alias_spec, compute_path_alias, shorten_spec, strs};
use crate::format::text::max_byte_len;
use crate::index::types::{deps_from, deps_seq, symbols_named, syms, Index};
use crate::ir::types::{dep_kind_name, Dependency, Symbol};
use crate::text::{
    byte_len_exec, decimal, join, join_strings, lemma_take_push, owned, pad, pad_right, push_str,
    usize_to_string, views,
};

verus! {

/// The dependencies of one symbol.
pub struct DepsGroup<'a> {
    pub qualified_name: String,
    pub deps: Vec<&'a Dependency>,
}

/// A group as its qualified name and dependencies.
pub open spec fn group_view(g: DepsGroup) -> (Seq<char>, Seq<Dependency>) {
    (g.qualified_name@, deps_seq(g.deps@))
}

pub open spec fn groups_view(v: Seq<DepsGroup>) -> Seq<(Seq<char>, Seq<Dependency>)> {
    v.map_values(|g: DepsGroup| group_view(g))
}

/// One group per symbol with the name, in index order, with its outgoing
/// dependencies.
pub open spec fn groups_spec(ss: Seq<Symbol>, ds: Seq<Dependency>) -> Seq<(Seq<char>, Seq<Dependency>)> {
    ss.map_values(|s: Symbol| (s.qualified_name@, deps_from(ds, s.qualified_name@)))
}

/// Collect dependencies for all symbols matching the given name.
pub fn collect_deps<'a>(index: &'a Index, name: &str) -> (r: Vec<DepsGroup<'a>>)
    ensures
        groups_view(r@) == groups_spec(symbols_named(index.symbols@, name@), index.deps@),
{
    let symbols = index.by_name(name);
    let ghost ss = syms(symbols@);
    let mut results: Vec<DepsGroup<'a>> = Vec::new();
    let mut i: usize = 0;
    while i < symbols.len()
        invariant
            i <= symbols.len(),
            ss == syms(symbols@),
            groups_view(results@) == groups_spec(ss.take(i as int), index.deps@),
        decreases symbols.len() - i,
    {
        let sym = symbols[i];
        assert(ss[i as int] == *sym);
        let deps = index.deps_of(sym.qualified_name.as_str());
        let ghost before = groups_view(results@);
        results.push(DepsGroup { qualified_name: sym.qualified_name.clone(), deps });
        assert(groups_view(results@) =~= before.push((sym.qualified_name@, deps_from(index.deps@, sym.qualified_name@))));
        assert(groups_spec(ss.take(i + 1), index.deps@) =~= groups_spec(ss.take(i as int), index.deps@).push(
            (sym.qualified_name@, deps_from(index.deps@, sym.qualified_name@)),
        ));
        i += 1;
    }
    assert(ss.take(symbols.len() as int) =~= ss);
    results
}

/// All dependencies of the groups, group by group.
pub open spec fn all_group_deps(gs: Seq<(Seq<char>, Seq<Dependency>)>) -> Seq<Dependency>
    decreases gs.len(),
{
    if gs.len() == 0 {
        seq![]
    } else {
        all_group_deps(gs.drop_last()) + gs.last().1
    }
}

pub open spec fn dep_tos(ds: Seq<Dependency>) -> Seq<Seq<char>> {
    ds.map_values(|d: Dependency| d.to_name@)
}

/// One dependency line: kind and target padded, then `file:line`.
pub open spec fn dep_line(d: Dependency, a: Option<(Seq<char>, Seq<char>)>, kw: nat, nw: nat) -> Seq<char> {
    let file = match a {
        Some((p, m)) => shorten_spec(p, m, d.loc.file@),
        None => d.loc.file@,
    };
    pad_right(dep_kind_name(d.kind), kw) + "  "@ + pad_right(d.to_name@, nw) + "  "@ + file + ":"@ + decimal(
        d.loc.line as nat,
    )
}

pub open spec fn dep_lines(ds: Seq<Dependency>, a: Option<(Seq<char>, Seq<char>)>, kw: nat, nw: nat) -> Seq<Seq<char>> {
    ds.map_values(|d: Dependency| dep_line(d, a, kw, nw))
}

/// A group's lines: a `# name` heading when there are several groups, then
/// its dependency lines (or a placeholder when it has none and there are
/// several groups).
pub open spec fn group_lines(
    g: (Seq<char>, Seq<Dependency>),
    a: Option<(Seq<char>, Seq<char>)>,
    kw: nat,
    nw: nat,
    multiple: bool,
) -> Seq<Seq<char>> {
    (if multiple {
        seq!["# "@ + g.0]
    } else {
        seq![]
    }) + if g.1.len() == 0 {
        if multiple {
            seq!["  (no dependencies)"@]
        } else {
            seq![]
        }
    } else {
        dep_lines(g.1, a, kw, nw)
    }
}

pub open spec fn all_group_lines(
    gs: Seq<(Seq<char>, Seq<Dependency>)>,
    a: Option<(Seq<char>, Seq<char>)>,
    kw: nat,
    nw: nat,
    multiple: bool,
) -> Seq<Seq<char>>
    decreases gs.len(),
{
    if gs.len() == 0 {
        seq![]
    } else {
        all_group_lines(gs.drop_last(), a, kw, nw, multiple) + group_lines(gs.last(), a, kw, nw, multiple)
    }
}

/// The grouped dependencies as text: `No dependencies found.` when no group
/// has any; otherwise an alias header when their files share a long prefix,
/// then each group's lines.
pub open spec fn deps_text(gs: Seq<(Seq<char>, Seq<Dependency>)>) -> Seq<char> {
    if forall|i: int| 0 <= i < gs.len() ==> (#[trigger] gs[i]).1.len() == 0 {
        "No dependencies found."@
    } else {
        let all = all_group_deps(gs);
        let a = alias_spec(dep_files(all));
        let kw = max_byte_len(dep_kinds(all));
        let nw = max_byte_len(dep_tos(all));
        join(alias_header(a) + all_group_lines(gs, a, kw, nw, gs.len() > 1), "\n"@)
    }
}

fn push_line(lines: &mut Vec<String>, s: String)
    ensures
        views(final(lines)@) == views(old(lines)@).push(s@),
{
    let ghost before = views(lines@);
    lines.push(s);
    assert(views(lines@) =~= before.push(s@));
}

/// Format grouped dependencies as text.
pub fn format_text(groups: &[DepsGroup]) -> (r: String)
    ensures
        r@ == deps_text(groups_view(groups@)),
{
    let ghost gs = groups_view(groups@);
    // Any dependencies at all?
    let mut any = false;
    let mut i: usize = 0;
    while i < groups.len()
        invariant
            i <= groups.len(),
            gs == groups_view(groups@),
            any == exists|j: int| 0 <= j < i && (#[trigger] gs[j]).1.len() > 0,
        decreases groups.len() - i,
    {
        assert(gs[i as int] == group_view(groups@[i as int]));
        if groups[i].deps.len() > 0 {
            any = true;
        }
        i += 1;
    }
    if !any {
        return owned("No dependencies found.");
    }
    // All dependencies, for the alias and the widths.
    let mut files: Vec<&str> = Vec::new();
    let mut kw: usize = 0;
    let mut nw: usize = 0;
    let ghost mut all: Seq<Dependency> = seq![];
    let mut i: usize = 0;
    assert(gs.take(0) =~= Seq::<(Seq<char>, Seq<Dependency>)>::empty());
    while i < groups.len()
        invariant
            i <= groups.len(),
            gs == groups_view(groups@),
            all == all_group_deps(gs.take(i as int)),
            strs(files@) == dep_files(all),
            kw as nat == max_byte_len(dep_kinds(all)),
            nw as nat == max_byte_len(dep_tos(all)),
        decreases groups.len() - i,
    {
        assert(gs[i as int] == group_view(groups@[i as int]));
        let g = &groups[i];
        let mut j: usize = 0;
        let ghost base = all;
        while j < g.deps.len()
            invariant
                j <= g.deps.len(),
                all == base + deps_seq(g.deps@).take(j as int),
                strs(files@) == dep_files(all),
                kw as nat == max_byte_len(dep_kinds(all)),
                nw as nat == max_byte_len(dep_tos(all)),
            decreases g.deps.len() - j,
        {
            let d = g.deps[j];
            let ghost next = all.push(*d);
            assert(next =~= base + deps_seq(g.deps@).take(j + 1));
            assert(dep_files(next) =~= dep_files(all).push(d.loc.file@));
            assert(dep_kinds(next) =~= dep_kinds(all).push(dep_kind_name(d.kind)));
            assert(dep_tos(next) =~= dep_tos(all).push(d.to_name@));
            assert(dep_kinds(next).drop_last() =~= dep_kinds(all));
            assert(dep_tos(next).drop_last() =~= dep_tos(all));
            let ghost before = strs(files@);
            files.push(d.loc.file.as_str());
            assert(strs(files@) =~= before.push(d.loc.file@));
            let kl = byte_len_exec(d.kind.name());
            if kl > kw {
                kw = kl;
            }
            let tl = byte_len_exec(d.to_name.as_str());
            if tl > nw {
                nw = tl;
            }
            proof {
                all = next;
            }
            j += 1;
        }
        assert(deps_seq(g.deps@).take(g.deps.len() as int) =~= deps_seq(g.deps@));
        assert(gs.take(i + 1).drop_last() =~= gs.take(i as int));
        assert(gs.take(i + 1).last() == gs[i as int]);
        i += 1;
    }
    assert(gs.take(groups.len() as int) =~= gs);
    let alias = compute_path_alias(files.as_slice());
    let ghost a = alias_spec(dep_files(all));
    let multiple = groups.len() > 1;
    let mut lines: Vec<String> = Vec::new();
    match &alias {
        Some(x) => {
            lines.push(x.header());
            lines.push(String::new());
        },
        None => {},
    }
    assert(views(lines@) =~= alias_header(a));
    let ghost hl = alias_header(a);
    let mut i: usize = 0;
    assert(hl + all_group_lines(gs.take(0), a, kw as nat, nw as nat, multiple) =~= hl);
    while i < groups.len()
        invariant
            i <= groups.len(),
            gs == groups_view(groups@),
            multiple == (gs.len() > 1),
            match alias {
                Some(x) => a == Some((x.prefix@, x.marker@)),
                None => a is None,
            },
            views(lines@) == hl + all_group_lines(gs.take(i as int), a, kw as nat, nw as nat, multiple),
        decreases groups.len() - i,
    {
        assert(gs[i as int] == group_view(groups@[i as int]));
        let g = &groups[i];
        let ghost gv = gs[i as int];
        let ghost base = views(lines@);
        if multiple {
            let mut h = owned("# ");
            push_str(&mut h, g.qualified_name.as_str());
            push_line(&mut lines, h);
        }
        let ghost mid = views(lines@);
        if g.deps.len() == 0 {
            if multiple {
                push_line(&mut lines, owned("  (no dependencies)"));
            }
        } else {
            let mut j: usize = 0;
            while j < g.deps.len()
                invariant
                    j <= g.deps.len(),
                    views(lines@) == mid + dep_lines(deps_seq(g.deps@).take(j as int), a, kw as nat, nw as nat),
                    match alias {
                        Some(x) => a == Some((x.prefix@, x.marker@)),
                        None => a is None,
                    },
                decreases g.deps.len() - j,
            {
                let d = g.deps[j];
                let mut line = pad(d.kind.name(), kw);
                push_str(&mut line, "  ");
                let pt = pad(d.to_name.as_str(), nw);
                push_str(&mut line, pt.as_str());
                push_str(&mut line, "  ");
                let file = match &alias {
                    Some(x) => x.shorten(d.loc.file.as_str()),
                    None => d.loc.file.clone(),
                };
                push_str(&mut line, file.as_str());
                push_str(&mut line, ":");
                let ln = usize_to_string(d.loc.line);
                push_str(&mut line, ln.as_str());
                assert(line@ == dep_line(*d, a, kw as nat, nw as nat));
                push_line(&mut lines, line);
                assert(dep_lines(deps_seq(g.deps@).take(j + 1), a, kw as nat, nw as nat) =~= dep_lines(
                    deps_seq(g.deps@).take(j as int),
                    a,
                    kw as nat,
                    nw as nat,
                ).push(dep_line(*d, a, kw as nat, nw as nat)));
                assert(mid + dep_lines(deps_seq(g.deps@).take(j + 1), a, kw as nat, nw as nat) =~= (mid + dep_lines(
                    deps_seq(g.deps@).take(j as int),
                    a,
                    kw as nat,
                    nw as nat,
                )).push(dep_line(*d, a, kw as nat, nw as nat)));
                j += 1;
            }
            assert(deps_seq(g.deps@).take(g.deps.len() as int) =~= deps_seq(g.deps@));
        }
        assert(views(lines@) =~= base + group_lines(gv, a, kw as nat, nw as nat, multiple));
        assert(gs.take(i + 1).drop_last() =~= gs.take(i as int));
        assert(gs.take(i + 1).last() == gv);
        i += 1;
    }
    assert(gs.take(groups.len() as int) =~= gs);
    join_strings(&lines, "\n")
}

} // verus!
