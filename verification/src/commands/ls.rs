//! The `ls` command's logic: the kind argument and the symbol listing.

use vstd::prelude::*;

use crate::format::path_alias::{alias_header, alias_spec, compute_path_alias, shorten_spec, strs};
use crate::format::text::{
    build_extra, build_extra_spec, display_name, display_name_spec, files_of, kinds_of,
    max_byte_len, names_of,
};
use crate::index::types::{lemma_filter_step, symbols_of_kinds, syms, Index};
use crate::ir::types::{native_kinds, symbol_kind_of_term, Symbol, SymbolKind};
use crate::text::{
    byte_len_exec, chars_of, contains, decimal, str_contains, join, join_strings, lemma_take_push, lowercase, owned, pad,
    pad_right, push_str, usize_to_string, views,
};

verus! {

/// The umbrella kind an `ls` argument names (`structs`, `fn`, `Trait`, ...).
pub fn parse_kind_filter(s: &str) -> (r: Option<SymbolKind>)
    ensures
        r == symbol_kind_of_term(lowercase(s@)),
{
    match SymbolKind::from_term(s) {
        Ok(k) => Some(k),
        Err(_) => None,
    }
}

/// One listing line: kind and name padded, `file:line` (the file shortened
/// by the alias), and the extra column when there is one.
pub open spec fn ls_line(s: Symbol, a: Option<(Seq<char>, Seq<char>)>, kw: nat, nw: nat) -> Seq<char> {
    let file = match a {
        Some((p, m)) => shorten_spec(p, m, s.loc.file@),
        None => s.loc.file@,
    };
    let base = pad_right(s.kind@, kw) + "  "@ + pad_right(display_name_spec(s), nw) + "  "@ + file + ":"@
        + decimal(s.loc.line as nat);
    if build_extra_spec(s).len() == 0 {
        base
    } else {
        base + "  "@ + build_extra_spec(s)
    }
}

/// The listing of the symbols: `No symbols found.` when there are none,
/// otherwise an alias header when their files share a long prefix, then one
/// aligned line per symbol.
pub open spec fn ls_text(ss: Seq<Symbol>) -> Seq<char> {
    if ss.len() == 0 {
        "No symbols found."@
    } else {
        let a = alias_spec(files_of(ss));
        let kw = max_byte_len(kinds_of(ss));
        let nw = max_byte_len(names_of(ss));
        join(alias_header(a) + ss.map_values(|s: Symbol| ls_line(s, a, kw, nw)), "\n"@)
    }
}

/// List symbols as aligned text.
pub fn format_text(symbols: &[&Symbol]) -> (r: String)
    ensures
        r@ == ls_text(syms(symbols@)),
{
    let ghost ss = syms(symbols@);
    let n = symbols.len();
    if n == 0 {
        return owned("No symbols found.");
    }
    let mut files: Vec<&str> = Vec::new();
    let mut kw: usize = 0;
    let mut nw: usize = 0;
    let mut i: usize = 0;
    while i < n
        invariant
            i <= n,
            n == symbols@.len(),
            ss == syms(symbols@),
            strs(files@) == files_of(ss).take(i as int),
            kw as nat == max_byte_len(kinds_of(ss).take(i as int)),
            nw as nat == max_byte_len(names_of(ss).take(i as int)),
        decreases n - i,
    {
        proof {
            lemma_take_push(kinds_of(ss), i as int);
            lemma_take_push(names_of(ss), i as int);
        }
        let s = symbols[i];
        assert(ss[i as int] == *s);
        let ghost before = strs(files@);
        files.push(s.loc.file.as_str());
        assert(strs(files@) =~= before.push(s.loc.file@));
        assert(files_of(ss).take(i + 1) =~= files_of(ss).take(i as int).push(s.loc.file@));
        let kl = byte_len_exec(s.kind.as_str());
        if kl > kw {
            kw = kl;
        }
        let dn = display_name(s);
        let nl = byte_len_exec(dn.as_str());
        if nl > nw {
            nw = nl;
        }
        i += 1;
    }
    assert(files_of(ss).take(n as int) =~= files_of(ss));
    assert(kinds_of(ss).take(n as int) =~= kinds_of(ss));
    assert(names_of(ss).take(n as int) =~= names_of(ss));
    let alias = compute_path_alias(files.as_slice());
    let ghost a = alias_spec(files_of(ss));
    let mut lines: Vec<String> = Vec::new();
    match &alias {
        Some(x) => {
            lines.push(x.header());
            lines.push(String::new());
        },
        None => {},
    }
    assert(views(lines@) =~= alias_header(a));
    let ghost hl = alias_header(a);
    let ghost f = |s: Symbol| ls_line(s, a, kw as nat, nw as nat);
    let mut i: usize = 0;
    while i < n
        invariant
            i <= n,
            n == symbols@.len(),
            ss == syms(symbols@),
            match alias {
                Some(x) => a == Some((x.prefix@, x.marker@)),
                None => a is None,
            },
            f == (|s: Symbol| ls_line(s, a, kw as nat, nw as nat)),
            views(lines@) == hl + ss.take(i as int).map_values(f),
        decreases n - i,
    {
        let s = symbols[i];
        assert(ss[i as int] == *s);
        let dn = display_name(s);
        let mut line = pad(s.kind.as_str(), kw);
        push_str(&mut line, "  ");
        let pn = pad(dn.as_str(), nw);
        push_str(&mut line, pn.as_str());
        push_str(&mut line, "  ");
        let file = match &alias {
            Some(x) => x.shorten(s.loc.file.as_str()),
            None => s.loc.file.clone(),
        };
        push_str(&mut line, file.as_str());
        push_str(&mut line, ":");
        let ln = usize_to_string(s.loc.line);
        push_str(&mut line, ln.as_str());
        let extra = build_extra(s);
        if chars_of(extra.as_str()).len() > 0 {
            push_str(&mut line, "  ");
            push_str(&mut line, extra.as_str());
        }
        assert(line@ == f(*s));
        let ghost before = views(lines@);
        lines.push(line);
        assert(views(lines@) =~= before.push(f(ss[i as int])));
        assert(ss.take(i + 1).map_values(f) =~= ss.take(i as int).map_values(f).push(f(ss[i as int])));
        assert(hl + ss.take(i + 1).map_values(f) =~= (hl + ss.take(i as int).map_values(f)).push(f(ss[i as int])));
        i += 1;
    }
    assert(ss.take(n as int) =~= ss);
    join_strings(&lines, "\n")
}

} // verus!

verus! {

/// Does a symbol's file path contain `p`?
pub open spec fn in_file_pred(p: Seq<char>) -> spec_fn(Symbol) -> bool {
    |s: Symbol| contains(s.loc.file@, p)
}

/// The symbols `ls` lists: those of the named kind (all of them when no
/// kind is given or the argument names none), then, with `--in`, those whose
/// file path contains its text.
pub open spec fn ls_selection(kind: Option<Seq<char>>, in_path: Option<Seq<char>>, ss: Seq<Symbol>) -> Seq<Symbol> {
    let by_kind = match kind {
        Some(k) => match symbol_kind_of_term(lowercase(k)) {
            Some(t) => symbols_of_kinds(ss, native_kinds(t)),
            None => ss,
        },
        None => ss,
    };
    match in_path {
        Some(p) => by_kind.filter(in_file_pred(p)),
        None => by_kind,
    }
}

pub open spec fn opt_view(o: Option<&str>) -> Option<Seq<char>> {
    match o {
        Some(s) => Some(s@),
        None => None,
    }
}

/// Select the symbols `ls` lists (see [`ls_selection`]).
pub fn select<'a>(index: &'a Index, symbol_type: Option<&str>, in_path: Option<&str>) -> (r: Vec<&'a Symbol>)
    ensures
        syms(r@) == ls_selection(opt_view(symbol_type), opt_view(in_path), index.symbols@),
{
    let kind = match symbol_type {
        Some(t) => parse_kind_filter(t),
        None => None,
    };
    let by_kind: Vec<&'a Symbol> = match kind {
        Some(k) => {
            let ks = k.native_kinds();
            index.by_kinds(&ks)
        },
        None => index.all_symbols(),
    };
    match in_path {
        None => by_kind,
        Some(p) => {
            let ghost pred = in_file_pred(p@);
            let ghost base = syms(by_kind@);
            let mut out: Vec<&'a Symbol> = Vec::new();
            let mut i: usize = 0;
            while i < by_kind.len()
                invariant
                    i <= by_kind.len(),
                    base == syms(by_kind@),
                    pred == in_file_pred(p@),
                    syms(out@) == base.take(i as int).filter(pred),
                decreases by_kind.len() - i,
            {
                proof {
                    lemma_filter_step(base, i as int, pred);
                }
                let ghost before = syms(out@);
                if str_contains(by_kind[i].loc.file.as_str(), p) {
                    out.push(by_kind[i]);
                    assert(syms(out@) =~= before.push(base[i as int]));
                }
                i += 1;
            }
            assert(base.take(by_kind.len() as int) =~= base);
            out
        },
    }
}

/// A text, or the empty one.
pub open spec fn opt_text(o: Option<Seq<char>>) -> Seq<char> {
    match o {
        Some(t) => t,
        None => Seq::<char>::empty(),
    }
}

/// The argument text `ls` logs and hands the daemon: the kind, then
/// ` --in ` and the path when one is given.
pub fn ls_args(symbol_type: Option<&str>, in_path: Option<&str>) -> (r: String)
    ensures
        r@ == match opt_view(in_path) {
            Some(p) => opt_text(opt_view(symbol_type)) + " --in "@ + p,
            None => opt_text(opt_view(symbol_type)),
        },
{
    let mut r = match symbol_type {
        Some(k) => owned(k),
        None => String::new(),
    };
    if let Some(p) = in_path {
        push_str(&mut r, " --in ");
        push_str(&mut r, p);
    }
    r
}

} // verus!
