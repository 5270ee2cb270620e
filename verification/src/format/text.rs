//! Text rendering of the symbols of a parsed file: one line per symbol,
//! `kind  name  file:line  [extra]`, columns aligned.

use vstd::prelude::*;

use crate::format::path_alias::{
    compute_path_display, display_spec, display_view, header_spec, loc_spec, strs, PathDisplay,
    PathDisplayV,
};
use crate::ir::types::{Field, Ir, Param, Symbol};
use crate::text::{
    byte_len, byte_len_exec, decimal, join, join_strings, lemma_join_push, lemma_take_push, owned,
    pad, pad_right, push_str, str_eq, usize_to_string, views,
};

verus! {

/// `Parent::name` for a member, the bare name otherwise.
pub open spec fn display_name_spec(s: Symbol) -> Seq<char> {
    match s.parent {
        Some(p) => p@ + "::"@ + s.name@,
        None => s.name@,
    }
}

/// A parameter as shown: `name: type`, or the bare name when untyped.
pub open spec fn param_text(p: Param) -> Seq<char> {
    if p.type_str@.len() == 0 {
        p.name@
    } else {
        p.name@ + ": "@ + p.type_str@
    }
}

/// The parameters other than `self`, as shown.
pub open spec fn shown_params(ps: Seq<Param>) -> Seq<Seq<char>> {
    ps.filter(|p: Param| p.name@ != "self"@).map_values(|p: Param| param_text(p))
}

pub open spec fn is_fn_like(k: Seq<char>) -> bool {
    k == "fn"@ || k == "func"@ || k == "function"@ || k == "method"@
}

pub open spec fn is_record_like(k: Seq<char>) -> bool {
    k == "struct"@ || k == "class"@ || k == "record"@
}

/// The extra column: `(params) ret` for functions and methods, `{fields}` for
/// structs, classes and records with fields, empty otherwise.
pub open spec fn build_extra_spec(s: Symbol) -> Seq<char> {
    if is_fn_like(s.kind@) {
        "("@ + join(shown_params(s.params@), ", "@) + ")"@ + match s.return_type {
            Some(r) => " "@ + r@,
            None => seq![],
        }
    } else if is_record_like(s.kind@) {
        if s.fields@.len() == 0 {
            seq![]
        } else {
            "{"@ + join(s.fields@.map_values(|f: Field| f.name@), ", "@) + "}"@
        }
    } else {
        seq![]
    }
}

/// `Parent::name` for a member, the bare name otherwise.
pub fn display_name(sym: &Symbol) -> (r: String)
    ensures
        r@ == display_name_spec(*sym),
{
    match &sym.parent {
        Some(p) => {
            let mut r = owned(p.as_str());
            push_str(&mut r, "::");
            push_str(&mut r, sym.name.as_str());
            r
        },
        None => owned(sym.name.as_str()),
    }
}

fn is_fn_like_exec(k: &str) -> (r: bool)
    ensures
        r == is_fn_like(k@),
{
    str_eq(k, "fn") || str_eq(k, "func") || str_eq(k, "function") || str_eq(k, "method")
}

fn is_record_like_exec(k: &str) -> (r: bool)
    ensures
        r == is_record_like(k@),
{
    str_eq(k, "struct") || str_eq(k, "class") || str_eq(k, "record")
}

/// The shown parameters of a symbol, in order.
pub fn param_texts(ps: &Vec<Param>) -> (r: Vec<String>)
    ensures
        views(r@) == shown_params(ps@),
{
    let ghost p = |x: Param| x.name@ != "self"@;
    let mut r: Vec<String> = Vec::new();
    let mut i: usize = 0;
    while i < ps.len()
        invariant
            i <= ps.len(),
            p == (|x: Param| x.name@ != "self"@),
            views(r@) == ps@.take(i as int).filter(p).map_values(|x: Param| param_text(x)),
        decreases ps.len() - i,
    {
        proof {
            crate::index::types::lemma_filter_step(ps@, i as int, p);
        }
        let ghost before = views(r@);
        if !str_eq(ps[i].name.as_str(), "self") {
            let t = if crate::text::chars_of(ps[i].type_str.as_str()).len() == 0 {
                owned(ps[i].name.as_str())
            } else {
                let mut t = owned(ps[i].name.as_str());
                push_str(&mut t, ": ");
                push_str(&mut t, ps[i].type_str.as_str());
                t
            };
            r.push(t);
            assert(views(r@) =~= before.push(param_text(ps@[i as int])));
            assert(ps@.take(i + 1).filter(p).map_values(|x: Param| param_text(x)) =~= ps@.take(
                i as int,
            ).filter(p).map_values(|x: Param| param_text(x)).push(param_text(ps@[i as int])));
        } else {
            assert(ps@.take(i + 1).filter(p).map_values(|x: Param| param_text(x)) =~= ps@.take(
                i as int,
            ).filter(p).map_values(|x: Param| param_text(x)));
        }
        i += 1;
    }
    assert(ps@.take(ps.len() as int) =~= ps@);
    r
}

/// The extra column of a symbol's line.
pub fn build_extra(sym: &Symbol) -> (r: String)
    ensures
        r@ == build_extra_spec(*sym),
{
    if is_fn_like_exec(sym.kind.as_str()) {
        let params = param_texts(&sym.params);
        let mut r = owned("(");
        let joined = join_strings(&params, ", ");
        push_str(&mut r, joined.as_str());
        push_str(&mut r, ")");
        match &sym.return_type {
            Some(rt) => {
                push_str(&mut r, " ");
                push_str(&mut r, rt.as_str());
            },
            None => {
                assert(r@ + Seq::<char>::empty() =~= r@);
            },
        }
        r
    } else if is_record_like_exec(sym.kind.as_str()) {
        if sym.fields.len() == 0 {
            let r = String::new();
            assert(r@ =~= Seq::<char>::empty());
            r
        } else {
            let mut names: Vec<String> = Vec::new();
            let mut i: usize = 0;
            while i < sym.fields.len()
                invariant
                    i <= sym.fields.len(),
                    views(names@) == sym.fields@.take(i as int).map_values(|f: Field| f.name@),
                decreases sym.fields.len() - i,
            {
                let ghost before = views(names@);
                names.push(sym.fields[i].name.clone());
                assert(views(names@) =~= before.push(sym.fields@[i as int].name@));
                assert(sym.fields@.take(i + 1).map_values(|f: Field| f.name@) =~= sym.fields@.take(
                    i as int,
                ).map_values(|f: Field| f.name@).push(sym.fields@[i as int].name@));
                i += 1;
            }
            assert(sym.fields@.take(sym.fields.len() as int) =~= sym.fields@);
            let mut r = owned("{");
            let joined = join_strings(&names, ", ");
            push_str(&mut r, joined.as_str());
            push_str(&mut r, "}");
            r
        }
    } else {
        let r = String::new();
        assert(r@ =~= Seq::<char>::empty());
        r
    }
}

/// The largest byte length among the strings.
pub open spec fn max_byte_len(v: Seq<Seq<char>>) -> nat
    decreases v.len(),
{
    if v.len() == 0 {
        0
    } else {
        let m = max_byte_len(v.drop_last());
        let l = byte_len(v.last()) as nat;
        if l > m {
            l
        } else {
            m
        }
    }
}

pub open spec fn kinds_of(ss: Seq<Symbol>) -> Seq<Seq<char>> {
    ss.map_values(|s: Symbol| s.kind@)
}

pub open spec fn names_of(ss: Seq<Symbol>) -> Seq<Seq<char>> {
    ss.map_values(|s: Symbol| display_name_spec(s))
}

pub open spec fn files_of(ss: Seq<Symbol>) -> Seq<Seq<char>> {
    ss.map_values(|s: Symbol| s.loc.file@)
}

/// One symbol's line, with the kind and name columns padded to `kw` and `nw`.
pub open spec fn symbol_line(s: Symbol, d: Option<PathDisplayV>, kw: nat, nw: nat) -> Seq<char> {
    let base = pad_right(s.kind@, kw) + "  "@ + pad_right(display_name_spec(s), nw) + "  "@ + loc_spec(
        d,
        s.loc.file@,
        s.loc.line,
    );
    if build_extra_spec(s).len() == 0 {
        base
    } else {
        base + "  "@ + build_extra_spec(s)
    }
}

/// The header lines (the display header and a blank line) when a path
/// display applies.
pub open spec fn header_lines(d: Option<PathDisplayV>) -> Seq<Seq<char>> {
    match d {
        Some(x) => seq![header_spec(x), seq![]],
        None => seq![],
    }
}

/// The text of a parsed file's symbols: empty with no symbols; otherwise the
/// header lines, then one line per symbol, joined by newlines.
pub open spec fn format_symbols_spec(ss: Seq<Symbol>) -> Seq<char> {
    if ss.len() == 0 {
        seq![]
    } else {
        let d = display_spec(files_of(ss));
        let kw = max_byte_len(kinds_of(ss));
        let nw = max_byte_len(names_of(ss));
        join(header_lines(d) + ss.map_values(|s: Symbol| symbol_line(s, d, kw, nw)), "\n"@)
    }
}

fn loc_text(d: &Option<PathDisplay>, file: &str, line: usize) -> (r: String)
    ensures
        r@ == loc_spec(display_view(*d), file@, line),
{
    match d {
        Some(x) => x.format_loc(file, line),
        None => {
            let mut r = owned(file);
            push_str(&mut r, ":");
            let n = usize_to_string(line);
            push_str(&mut r, n.as_str());
            r
        },
    }
}

/// Format a parsed file's symbols as greppable text. Each line:
/// `kind  name  file:line  [extra]`, with a path header when all symbols
/// share a file or a long directory prefix.
pub fn format_symbols(ir: &Ir) -> (r: String)
    ensures
        r@ == format_symbols_spec(ir.symbols@),
{
    let ss = &ir.symbols;
    let n = ss.len();
    if n == 0 {
        let r = String::new();
        assert(r@ =~= Seq::<char>::empty());
        return r;
    }
    // File paths, kind and name widths.
    let mut files: Vec<&str> = Vec::new();
    let mut kw: usize = 0;
    let mut nw: usize = 0;
    let mut i: usize = 0;
    while i < n
        invariant
            i <= n,
            n == ss.len(),
            strs(files@) == files_of(ss@).take(i as int),
            kw as nat == max_byte_len(kinds_of(ss@).take(i as int)),
            nw as nat == max_byte_len(names_of(ss@).take(i as int)),
        decreases n - i,
    {
        proof {
            lemma_take_push(kinds_of(ss@), i as int);
            lemma_take_push(names_of(ss@), i as int);
        }
        let ghost before = strs(files@);
        files.push(ss[i].loc.file.as_str());
        assert(strs(files@) =~= before.push(ss@[i as int].loc.file@));
        assert(files_of(ss@).take(i + 1) =~= files_of(ss@).take(i as int).push(ss@[i as int].loc.file@));
        let kl = byte_len_exec(ss[i].kind.as_str());
        if kl > kw {
            kw = kl;
        }
        let dn = display_name(&ss[i]);
        let nl = byte_len_exec(dn.as_str());
        if nl > nw {
            nw = nl;
        }
        i += 1;
    }
    assert(files_of(ss@).take(n as int) =~= files_of(ss@));
    assert(kinds_of(ss@).take(n as int) =~= kinds_of(ss@));
    assert(names_of(ss@).take(n as int) =~= names_of(ss@));
    let display = compute_path_display(files.as_slice());
    let ghost d = display_view(display);
    let mut lines: Vec<String> = Vec::new();
    match &display {
        Some(x) => {
            lines.push(x.header());
            lines.push(String::new());
            assert(views(lines@) =~= header_lines(d));
        },
        None => {
            assert(views(lines@) =~= header_lines(d));
        },
    }
    let ghost hl = header_lines(d);
    let ghost f = |s: Symbol| symbol_line(s, d, kw as nat, nw as nat);
    let mut i: usize = 0;
    while i < n
        invariant
            i <= n,
            n == ss.len(),
            d == display_view(display),
            f == (|s: Symbol| symbol_line(s, d, kw as nat, nw as nat)),
            views(lines@) == hl + ss@.take(i as int).map_values(f),
        decreases n - i,
    {
        let s = &ss[i];
        let dn = display_name(s);
        let mut line = pad(s.kind.as_str(), kw);
        push_str(&mut line, "  ");
        let pn = pad(dn.as_str(), nw);
        push_str(&mut line, pn.as_str());
        push_str(&mut line, "  ");
        let loc = loc_text(&display, s.loc.file.as_str(), s.loc.line);
        push_str(&mut line, loc.as_str());
        let extra = build_extra(s);
        if crate::text::chars_of(extra.as_str()).len() > 0 {
            push_str(&mut line, "  ");
            push_str(&mut line, extra.as_str());
        }
        assert(line@ == f(*s));
        let ghost before = views(lines@);
        lines.push(line);
        assert(views(lines@) =~= before.push(f(ss@[i as int])));
        assert(ss@.take(i + 1).map_values(f) =~= ss@.take(i as int).map_values(f).push(f(ss@[i as int])));
        assert(hl + ss@.take(i + 1).map_values(f) =~= (hl + ss@.take(i as int).map_values(f)).push(f(ss@[i as int])));
        i += 1;
    }
    assert(ss@.take(n as int) =~= ss@);
    join_strings(&lines, "\n")
}

} // verus!
