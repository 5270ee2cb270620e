//! The `refs` command's logic: the references to a name, one per line.

use vstd::prelude::*;

use crate::format::path_alias::{
    compute_path_display, display_spec, display_view, header_spec, loc_spec, strs, PathDisplay,
    PathDisplayV,
};
use crate::format::text::max_byte_len;
use crate::index::types::deps_seq;
use crate::ir::types::{dep_kind_name, Dependency};
use crate::text::{
    byte_len_exec, join, join_strings, lemma_take_push, owned, pad, pad_right, push_str,
    usize_to_string, views,
};

verus! {

pub open spec fn dep_files(ds: Seq<Dependency>) -> Seq<Seq<char>> {
    ds.map_values(|d: Dependency| d.loc.file@)
}

pub open spec fn dep_kinds(ds: Seq<Dependency>) -> Seq<Seq<char>> {
    ds.map_values(|d: Dependency| dep_kind_name(d.kind))
}

pub open spec fn dep_froms(ds: Seq<Dependency>) -> Seq<Seq<char>> {
    ds.map_values(|d: Dependency| d.from_qualified@)
}

/// One reference line: kind and source padded, then the location.
pub open spec fn ref_line(d: Dependency, disp: Option<PathDisplayV>, kw: nat, fw: nat) -> Seq<char> {
    pad_right(dep_kind_name(d.kind), kw) + "  "@ + pad_right(d.from_qualified@, fw) + "  "@ + loc_spec(
        disp,
        d.loc.file@,
        d.loc.line,
    )
}

pub open spec fn header_lines(d: Option<PathDisplayV>) -> Seq<Seq<char>> {
    match d {
        Some(x) => seq![header_spec(x), seq![]],
        None => seq![],
    }
}

/// The references as aligned lines under a path header when one applies.
pub open spec fn refs_text(ds: Seq<Dependency>) -> Seq<char> {
    let disp = display_spec(dep_files(ds));
    let kw = max_byte_len(dep_kinds(ds));
    let fw = max_byte_len(dep_froms(ds));
    join(header_lines(disp) + ds.map_values(|d: Dependency| ref_line(d, disp, kw, fw)), "\n"@)
}

fn loc_text(d: &Option<PathDisplay>, file: &str, line: usize) -> (r: String)
    ensures
        r@ == loc_spec(display_view(*d), file@, line),
{
    match d {
        Some(x) => x.format_loc(file, line),
        None => {
            let mut r = owned(file);
            push_str(&mut r, ":");
            let n = usize_to_string(line);
            push_str(&mut r, n.as_str());
            r
        },
    }
}

/// Format references as aligned text.
pub fn format_text(refs: &[&Dependency]) -> (r: String)
    ensures
        r@ == refs_text(deps_seq(refs@)),
{
    let ghost ds = deps_seq(refs@);
    let n = refs.len();
    let mut files: Vec<&str> = Vec::new();
    let mut kw: usize = 0;
    let mut fw: usize = 0;
    let mut i: usize = 0;
    while i < n
        invariant
            i <= n,
            n == refs@.len(),
            ds == deps_seq(refs@),
            strs(files@) == dep_files(ds).take(i as int),
            kw as nat == max_byte_len(dep_kinds(ds).take(i as int)),
            fw as nat == max_byte_len(dep_froms(ds).take(i as int)),
        decreases n - i,
    {
        proof {
            lemma_take_push(dep_kinds(ds), i as int);
            lemma_take_push(dep_froms(ds), i as int);
        }
        let d = refs[i];
        assert(ds[i as int] == *d);
        let ghost before = strs(files@);
        files.push(d.loc.file.as_str());
        assert(strs(files@) =~= before.push(d.loc.file@));
        assert(dep_files(ds).take(i + 1) =~= dep_files(ds).take(i as int).push(d.loc.file@));
        let kl = byte_len_exec(d.kind.name());
        if kl > kw {
            kw = kl;
        }
        let fl = byte_len_exec(d.from_qualified.as_str());
        if fl > fw {
            fw = fl;
        }
        i += 1;
    }
    assert(dep_files(ds).take(n as int) =~= dep_files(ds));
    assert(dep_kinds(ds).take(n as int) =~= dep_kinds(ds));
    assert(dep_froms(ds).take(n as int) =~= dep_froms(ds));
    let display = compute_path_display(files.as_slice());
    let ghost disp = display_view(display);
    let mut lines: Vec<String> = Vec::new();
    match &display {
        Some(x) => {
            lines.push(x.header());
            lines.push(String::new());
        },
        None => {},
    }
    assert(views(lines@) =~= header_lines(disp));
    let ghost hl = header_lines(disp);
    let ghost f = |d: Dependency| ref_line(d, disp, kw as nat, fw as nat);
    let mut i: usize = 0;
    while i < n
        invariant
            i <= n,
            n == refs@.len(),
            ds == deps_seq(refs@),
            disp == display_view(display),
            f == (|d: Dependency| ref_line(d, disp, kw as nat, fw as nat)),
            views(lines@) == hl + ds.take(i as int).map_values(f),
        decreases n - i,
    {
        let d = refs[i];
        assert(ds[i as int] == *d);
        let mut line = pad(d.kind.name(), kw);
        push_str(&mut line, "  ");
        let pf = pad(d.from_qualified.as_str(), fw);
        push_str(&mut line, pf.as_str());
        push_str(&mut line, "  ");
        let loc = loc_text(&display, d.loc.file.as_str(), d.loc.line);
        push_str(&mut line, loc.as_str());
        let ghost before = views(lines@);
        lines.push(line);
        assert(views(lines@) =~= before.push(f(ds[i as int])));
        assert(ds.take(i + 1).map_values(f) =~= ds.take(i as int).map_values(f).push(f(ds[i as int])));
        assert(hl + ds.take(i + 1).map_values(f) =~= (hl + ds.take(i as int).map_values(f)).push(f(ds[i as int])));
        i += 1;
    }
    assert(ds.take(n as int) =~= ds);
    join_strings(&lines, "\n")
}

} // verus!
