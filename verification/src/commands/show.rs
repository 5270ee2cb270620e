//! The `show` command's logic: the full detail of the symbols with a name.

use vstd::prelude::*;

use crate::format::path_alias::{alias_pair, alias_spec, compute_path_alias, shorten_spec, strs, PathAlias};
use crate::format::text::{files_of, param_text};
use crate::index::types::syms;
use crate::ir::types::{Field, Param, Symbol, Visibility};
use crate::text::{
    decimal, join, join_strings, owned, push_str, str_eq, usize_to_string, views,
};

verus! {

/// Visibility as `show` prints it.
pub open spec fn visibility_text(v: Visibility) -> Seq<char> {
    match v {
        Visibility::Public => "pub"@,
        Visibility::Crate => "pub(crate)"@,
        Visibility::Private => "private"@,
    }
}

fn visibility_str(vis: Visibility) -> (r: &'static str)
    ensures
        r@ == visibility_text(vis),
{
    match vis {
        Visibility::Public => "pub",
        Visibility::Crate => "pub(crate)",
        Visibility::Private => "private",
    }
}

pub open spec fn opt_line(prefix: Seq<char>, v: Option<String>) -> Seq<Seq<char>> {
    match v {
        Some(x) => seq![prefix + x@],
        None => seq![],
    }
}

pub open spec fn field_line(f: Field) -> Seq<char> {
    "    "@ + visibility_text(f.visibility) + " "@ + f.name@ + ": "@ + f.type_str@
}

pub open spec fn is_fn_kind(k: Seq<char>) -> bool {
    k == "fn"@ || k == "func"@ || k == "method"@
}

pub open spec fn head_lines(s: Symbol, a: Option<(Seq<char>, Seq<char>)>) -> Seq<Seq<char>> {
    let file = match a {
        Some((p, m)) => shorten_spec(p, m, s.loc.file@),
        None => s.loc.file@,
    };
    seq![
        s.kind@ + " "@ + s.qualified_name@,
        "  file: "@ + file + ":"@ + decimal(s.loc.line as nat),
        "  visibility: "@ + visibility_text(s.visibility),
    ] + opt_line("  parent: "@, s.parent) + opt_line("  signature: "@, s.signature)
}

pub open spec fn params_part(s: Symbol) -> Seq<Seq<char>> {
    if is_fn_kind(s.kind@) && s.params@.len() > 0 {
        seq!["  params: ("@ + join(s.params@.map_values(|p: Param| param_text(p)), ", "@) + ")"@]
    } else {
        seq![]
    }
}

pub open spec fn fields_part(s: Symbol) -> Seq<Seq<char>> {
    if s.fields@.len() > 0 {
        seq!["  fields:"@] + s.fields@.map_values(|f: Field| field_line(f))
    } else {
        seq![]
    }
}

pub open spec fn attrs_part(s: Symbol) -> Seq<Seq<char>> {
    if s.attributes@.len() > 0 {
        seq!["  attributes: "@ + join(views(s.attributes@), ", "@)]
    } else {
        seq![]
    }
}

/// The detail lines of a symbol.
pub open spec fn detail_lines(s: Symbol, a: Option<(Seq<char>, Seq<char>)>) -> Seq<Seq<char>> {
    head_lines(s, a) + params_part(s) + opt_line("  returns: "@, s.return_type) + fields_part(s)
        + attrs_part(s)
}

pub open spec fn detail_text(s: Symbol, a: Option<(Seq<char>, Seq<char>)>) -> Seq<char> {
    join(detail_lines(s, a), "\n"@)
}

/// The detail of the symbols separated by `---` lines, under an alias header
/// when their files share a long directory prefix.
pub open spec fn show_text(ss: Seq<Symbol>) -> Seq<char> {
    let a = alias_spec(files_of(ss));
    let body = join(ss.map_values(|s: Symbol| detail_text(s, a)), "\n---\n"@);
    match a {
        Some((p, m)) => m + " = "@ + p + "\n\n"@ + body,
        None => body,
    }
}

fn push_line(lines: &mut Vec<String>, s: String)
    ensures
        views(final(lines)@) == views(old(lines)@).push(s@),
{
    let ghost before = views(lines@);
    lines.push(s);
    assert(views(lines@) =~= before.push(s@));
}

fn prefixed(prefix: &str, v: &str) -> (r: String)
    ensures
        r@ == prefix@ + v@,
{
    let mut r = owned(prefix);
    push_str(&mut r, v);
    r
}

fn push_opt_line(lines: &mut Vec<String>, prefix: &str, v: &Option<String>)
    ensures
        views(final(lines)@) == views(old(lines)@) + opt_line(prefix@, *v),
{
    match v {
        Some(x) => {
            let ghost before = views(lines@);
            push_line(lines, prefixed(prefix, x.as_str()));
            assert(views(lines@) =~= before + opt_line(prefix@, *v));
        },
        None => {
            assert(views(lines@) =~= views(lines@) + opt_line(prefix@, *v));
        },
    }
}

fn append_lines(lines: &mut Vec<String>, more: Vec<String>)
    ensures
        views(final(lines)@) == views(old(lines)@) + views(more@),
{
    let ghost base = views(lines@);
    let mut i: usize = 0;
    while i < more.len()
        invariant
            i <= more.len(),
            views(lines@) == base + views(more@).take(i as int),
        decreases more.len() - i,
    {
        push_line(lines, more[i].clone());
        assert(views(more@).take(i + 1) =~= views(more@).take(i as int).push(more@[i as int]@));
        assert(base + views(more@).take(i + 1) =~= (base + views(more@).take(i as int)).push(more@[i as int]@));
        i += 1;
    }
    assert(views(more@).take(more.len() as int) =~= views(more@));
}

fn head_part(sym: &Symbol, alias: &Option<PathAlias>) -> (r: Vec<String>)
    ensures
        views(r@) == head_lines(*sym, alias_pair(*alias)),
{
    let mut lines: Vec<String> = Vec::new();
    let mut l0 = sym.kind.clone();
    push_str(&mut l0, " ");
    push_str(&mut l0, sym.qualified_name.as_str());
    push_line(&mut lines, l0);
    let file = match alias {
        Some(x) => x.shorten(sym.loc.file.as_str()),
        None => sym.loc.file.clone(),
    };
    let mut l1 = owned("  file: ");
    push_str(&mut l1, file.as_str());
    push_str(&mut l1, ":");
    let ln = usize_to_string(sym.loc.line);
    push_str(&mut l1, ln.as_str());
    push_line(&mut lines, l1);
    push_line(&mut lines, prefixed("  visibility: ", visibility_str(sym.visibility)));
    push_opt_line(&mut lines, "  parent: ", &sym.parent);
    push_opt_line(&mut lines, "  signature: ", &sym.signature);
    lines
}

fn params_lines(sym: &Symbol) -> (r: Vec<String>)
    ensures
        views(r@) == params_part(*sym),
{
    let mut lines: Vec<String> = Vec::new();
    let is_fn = str_eq(sym.kind.as_str(), "fn") || str_eq(sym.kind.as_str(), "func") || str_eq(
        sym.kind.as_str(),
        "method",
    );
    if is_fn && sym.params.len() > 0 {
        let mut texts: Vec<String> = Vec::new();
        let mut i: usize = 0;
        while i < sym.params.len()
            invariant
                i <= sym.params.len(),
                views(texts@) == sym.params@.take(i as int).map_values(|p: Param| param_text(p)),
            decreases sym.params.len() - i,
        {
            let p = &sym.params[i];
            let t = if crate::text::chars_of(p.type_str.as_str()).len() == 0 {
                p.name.clone()
            } else {
                let mut t = p.name.clone();
                push_str(&mut t, ": ");
                push_str(&mut t, p.type_str.as_str());
                t
            };
            push_line(&mut texts, t);
            assert(sym.params@.take(i + 1).map_values(|p: Param| param_text(p)) =~= sym.params@.take(
                i as int,
            ).map_values(|p: Param| param_text(p)).push(param_text(sym.params@[i as int])));
            i += 1;
        }
        assert(sym.params@.take(sym.params.len() as int) =~= sym.params@);
        let mut l = owned("  params: (");
        let j = join_strings(&texts, ", ");
        push_str(&mut l, j.as_str());
        push_str(&mut l, ")");
        push_line(&mut lines, l);
        assert(views(lines@) =~= params_part(*sym));
    } else {
        assert(views(lines@) =~= params_part(*sym));
    }
    lines
}

fn fields_lines(sym: &Symbol) -> (r: Vec<String>)
    ensures
        views(r@) == fields_part(*sym),
{
    let mut lines: Vec<String> = Vec::new();
    if sym.fields.len() > 0 {
        push_line(&mut lines, owned("  fields:"));
        let ghost base = views(lines@);
        let mut i: usize = 0;
        while i < sym.fields.len()
            invariant
                i <= sym.fields.len(),
                views(lines@) == base + sym.fields@.take(i as int).map_values(|f: Field| field_line(f)),
            decreases sym.fields.len() - i,
        {
            let f = &sym.fields[i];
            let mut l = owned("    ");
            push_str(&mut l, visibility_str(f.visibility));
            push_str(&mut l, " ");
            push_str(&mut l, f.name.as_str());
            push_str(&mut l, ": ");
            push_str(&mut l, f.type_str.as_str());
            push_line(&mut lines, l);
            assert(sym.fields@.take(i + 1).map_values(|f: Field| field_line(f)) =~= sym.fields@.take(
                i as int,
            ).map_values(|f: Field| field_line(f)).push(field_line(sym.fields@[i as int])));
            assert(base + sym.fields@.take(i + 1).map_values(|f: Field| field_line(f)) =~= (base + sym.fields@.take(
                i as int,
            ).map_values(|f: Field| field_line(f))).push(field_line(sym.fields@[i as int])));
            i += 1;
        }
        assert(sym.fields@.take(sym.fields.len() as int) =~= sym.fields@);
    } else {
        assert(views(lines@) =~= fields_part(*sym));
    }
    lines
}

fn attrs_lines(sym: &Symbol) -> (r: Vec<String>)
    ensures
        views(r@) == attrs_part(*sym),
{
    let mut lines: Vec<String> = Vec::new();
    if sym.attributes.len() > 0 {
        let j = join_strings(&sym.attributes, ", ");
        push_line(&mut lines, prefixed("  attributes: ", j.as_str()));
        assert(views(lines@) =~= attrs_part(*sym));
    } else {
        assert(views(lines@) =~= attrs_part(*sym));
    }
    lines
}

fn format_symbol_detail(sym: &Symbol, alias: &Option<PathAlias>) -> (r: String)
    ensures
        r@ == detail_text(*sym, alias_pair(*alias)),
{
    let mut lines = head_part(sym, alias);
    append_lines(&mut lines, params_lines(sym));
    push_opt_line(&mut lines, "  returns: ", &sym.return_type);
    append_lines(&mut lines, fields_lines(sym));
    append_lines(&mut lines, attrs_lines(sym));
    join_strings(&lines, "\n")
}

/// Format the detail of the symbols as text.
pub fn format_text(symbols: &[&Symbol]) -> (r: String)
    ensures
        r@ == show_text(syms(symbols@)),
{
    let ghost ss = syms(symbols@);
    let n = symbols.len();
    let mut files: Vec<&str> = Vec::new();
    let mut i: usize = 0;
    while i < n
        invariant
            i <= n,
            n == symbols@.len(),
            ss == syms(symbols@),
            strs(files@) == files_of(ss).take(i as int),
        decreases n - i,
    {
        assert(ss[i as int] == *symbols@[i as int]);
        let ghost before = strs(files@);
        files.push(symbols[i].loc.file.as_str());
        assert(strs(files@) =~= before.push(ss[i as int].loc.file@));
        assert(files_of(ss).take(i + 1) =~= files_of(ss).take(i as int).push(ss[i as int].loc.file@));
        i += 1;
    }
    assert(files_of(ss).take(n as int) =~= files_of(ss));
    let alias = compute_path_alias(files.as_slice());
    let ghost a = alias_spec(files_of(ss));
    assert(a == alias_pair(alias));
    let ghost f = |s: Symbol| detail_text(s, a);
    let mut details: Vec<String> = Vec::new();
    let mut i: usize = 0;
    while i < n
        invariant
            i <= n,
            n == symbols@.len(),
            ss == syms(symbols@),
            a == alias_pair(alias),
            f == (|s: Symbol| detail_text(s, a)),
            views(details@) == ss.take(i as int).map_values(f),
        decreases n - i,
    {
        assert(ss[i as int] == *symbols@[i as int]);
        let d = format_symbol_detail(symbols[i], &alias);
        push_line(&mut details, d);
        assert(ss.take(i + 1).map_values(f) =~= ss.take(i as int).map_values(f).push(f(ss[i as int])));
        i += 1;
    }
    assert(ss.take(n as int) =~= ss);
    let body = join_strings(&details, "\n---\n");
    match &alias {
        Some(x) => {
            let mut r = x.header();
            push_str(&mut r, "\n\n");
            push_str(&mut r, body.as_str());
            r
        },
        None => body,
    }
}

} // verus!
