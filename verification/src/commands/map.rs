//! `map`: a compact overview of a project's layout. Files are grouped by
//! directory (optionally down to a depth), each directory listed with its
//! symbol counts by kind and the other directories it depends on, or with
//! each file's symbols inline.
//!
//! File paths are the index's own: `/`-separated and relative to the project
//! root. Directories are compared and ordered by their components.

use vstd::prelude::*;

use crate::index::types::{indices_where, ints, lemma_filter_step, table_view, Index};
use crate::ir::types::{Dependency, Symbol, SymbolKind, Visibility};
use crate::paths::{components, file_name, file_name_of, path_components};
use crate::query::engine::{lex_compare, lex_order};
use crate::text::{
    byte_len, chars_of, contains, decimal, ends_with, join, join_strings, lowercase, owned,
    pad, pad_right, push_str, str_contains, str_ends_with, str_eq, to_lower, trim, trim_end_char, usize_to_string,
    views,
};

verus! {

/// A path under a generated, vendored or third-party directory, or a file
/// whose name marks it as generated code.
pub open spec fn is_generated_spec(p: Seq<char>) -> bool {
    contains(p, "/generated/"@) || contains(p, "/gen/"@) || contains(p, "/vendor/"@) || contains(
        p,
        "/third_party/"@,
    ) || contains(p, "/thirdparty/"@) || match file_name(p) {
        Some(f) => {
            let fl = lowercase(f);
            contains(fl, "generated"@) || ends_with(fl, ".pb.go"@) || fl == "bindings.rs"@ || ends_with(
                fl,
                "_pb2.py"@,
            ) || ends_with(fl, ".pb.swift"@)
        },
        None => false,
    }
}

/// Whether a file is generated code (see [`is_generated_spec`]).
pub fn is_generated(path: &str) -> (r: bool)
    ensures
        r == is_generated_spec(path@),
{
    if str_contains(path, "/generated/") || str_contains(path, "/gen/") || str_contains(path, "/vendor/")
        || str_contains(path, "/third_party/") || str_contains(path, "/thirdparty/") {
        return true;
    }
    match file_name_of(path) {
        Some(f) => {
            let fl = to_lower(f.as_str());
            let fl = fl.as_str();
            str_contains(fl, "generated") || str_ends_with(fl, ".pb.go") || str_eq(fl, "bindings.rs")
                || str_ends_with(fl, "_pb2.py") || str_ends_with(fl, ".pb.swift")
        },
        None => false,
    }
}

} // verus!

verus! {

// ---------------------------------------------------------------------------
// Kinds
// ---------------------------------------------------------------------------

/// The umbrella kind a language-native kind belongs to, if any (`func` and
/// `def` are functions, `interface` a trait, `namespace` a module, ...).
pub open spec fn umbrella(k: Seq<char>) -> Option<SymbolKind> {
    if k == "fn"@ || k == "func"@ || k == "function"@ || k == "def"@ {
        Some(SymbolKind::Function)
    } else if k == "method"@ {
        Some(SymbolKind::Method)
    } else if k == "struct"@ {
        Some(SymbolKind::Struct)
    } else if k == "enum"@ {
        Some(SymbolKind::Enum)
    } else if k == "trait"@ || k == "interface"@ {
        Some(SymbolKind::Trait)
    } else if k == "impl"@ {
        Some(SymbolKind::Impl)
    } else if k == "const"@ {
        Some(SymbolKind::Const)
    } else if k == "type"@ {
        Some(SymbolKind::TypeAlias)
    } else if k == "mod"@ || k == "namespace"@ {
        Some(SymbolKind::Module)
    } else {
        None
    }
}

/// The umbrella kind of a native kind (see [`umbrella`]).
pub fn umbrella_kind(k: &str) -> (r: Option<SymbolKind>)
    ensures
        r == umbrella(k@),
{
    if str_eq(k, "fn") || str_eq(k, "func") || str_eq(k, "function") || str_eq(k, "def") {
        Some(SymbolKind::Function)
    } else if str_eq(k, "method") {
        Some(SymbolKind::Method)
    } else if str_eq(k, "struct") {
        Some(SymbolKind::Struct)
    } else if str_eq(k, "enum") {
        Some(SymbolKind::Enum)
    } else if str_eq(k, "trait") || str_eq(k, "interface") {
        Some(SymbolKind::Trait)
    } else if str_eq(k, "impl") {
        Some(SymbolKind::Impl)
    } else if str_eq(k, "const") {
        Some(SymbolKind::Const)
    } else if str_eq(k, "type") {
        Some(SymbolKind::TypeAlias)
    } else if str_eq(k, "mod") || str_eq(k, "namespace") {
        Some(SymbolKind::Module)
    } else {
        None
    }
}

/// Does the map show this symbol? Never impls or methods; unless `all`,
/// only public and crate-visible ones.
pub open spec fn map_keeps(s: Symbol, all: bool) -> bool {
    &&& umbrella(s.kind@) != Some(SymbolKind::Impl)
    &&& umbrella(s.kind@) != Some(SymbolKind::Method)
    &&& (all || s.visibility == Visibility::Public || s.visibility == Visibility::Crate)
}

fn keeps(s: &Symbol, all: bool) -> (r: bool)
    ensures
        r == map_keeps(*s, all),
{
    let u = umbrella_kind(s.kind.as_str());
    let shown = match u {
        Some(SymbolKind::Impl) => false,
        Some(SymbolKind::Method) => false,
        _ => true,
    };
    shown && (all || s.visibility == Visibility::Public || s.visibility == Visibility::Crate)
}

/// Types and constants come before everything else in a file's list.
pub open spec fn map_rank(k: Seq<char>) -> int {
    match umbrella(k) {
        Some(SymbolKind::Struct) | Some(SymbolKind::Enum) | Some(SymbolKind::Trait) | Some(SymbolKind::TypeAlias) | Some(
            SymbolKind::Const,
        ) => 0,
        _ => 1,
    }
}

fn map_rank_of(k: &str) -> (r: u8)
    ensures
        r as int == map_rank(k@),
{
    match umbrella_kind(k) {
        Some(SymbolKind::Struct) | Some(SymbolKind::Enum) | Some(SymbolKind::Trait) | Some(SymbolKind::TypeAlias) | Some(
            SymbolKind::Const,
        ) => 0,
        _ => 1,
    }
}

/// A symbol's name as a file's inline list shows it: functions bare, other
/// kinds after their keyword.
pub open spec fn inline_name(s: Symbol) -> Seq<char> {
    match umbrella(s.kind@) {
        Some(SymbolKind::Struct) => "struct "@ + s.name@,
        Some(SymbolKind::Enum) => "enum "@ + s.name@,
        Some(SymbolKind::Trait) => "trait "@ + s.name@,
        Some(SymbolKind::TypeAlias) => "type "@ + s.name@,
        Some(SymbolKind::Const) => "const "@ + s.name@,
        Some(SymbolKind::Module) => "mod "@ + s.name@,
        _ => s.name@,
    }
}

fn inline_name_of(s: &Symbol) -> (r: String)
    ensures
        r@ == inline_name(*s),
{
    let word = match umbrella_kind(s.kind.as_str()) {
        Some(SymbolKind::Struct) => "struct ",
        Some(SymbolKind::Enum) => "enum ",
        Some(SymbolKind::Trait) => "trait ",
        Some(SymbolKind::TypeAlias) => "type ",
        Some(SymbolKind::Const) => "const ",
        Some(SymbolKind::Module) => "mod ",
        _ => "",
    };
    proof {
        reveal_strlit("");
    }
    let mut r = owned(word);
    push_str(&mut r, s.name.as_str());
    proof {
        match umbrella(s.kind@) {
            Some(SymbolKind::Struct) | Some(SymbolKind::Enum) | Some(SymbolKind::Trait) | Some(SymbolKind::TypeAlias) | Some(
                SymbolKind::Const,
            ) | Some(SymbolKind::Module) => {},
            _ => {
                assert(r@ =~= s.name@);
            },
        }
    }
    r
}

/// The kinds the per-directory counts show, with their position in the
/// count list: struct, enum, trait, type, const, mod, fn.
pub open spec fn kind_label(k: Seq<char>) -> Option<(Seq<char>, int)> {
    match umbrella(k) {
        Some(SymbolKind::Struct) => Some(("struct"@, 0)),
        Some(SymbolKind::Enum) => Some(("enum"@, 1)),
        Some(SymbolKind::Trait) => Some(("trait"@, 2)),
        Some(SymbolKind::TypeAlias) => Some(("type"@, 3)),
        Some(SymbolKind::Const) => Some(("const"@, 4)),
        Some(SymbolKind::Module) => Some(("mod"@, 5)),
        Some(SymbolKind::Function) => Some(("fn"@, 6)),
        _ => None,
    }
}

/// The label of count position `o`.
pub open spec fn label_at(o: int) -> Seq<char> {
    if o == 0 {
        "struct"@
    } else if o == 1 {
        "enum"@
    } else if o == 2 {
        "trait"@
    } else if o == 3 {
        "type"@
    } else if o == 4 {
        "const"@
    } else if o == 5 {
        "mod"@
    } else {
        "fn"@
    }
}

fn label_of(o: usize) -> (r: &'static str)
    ensures
        r@ == label_at(o as int),
{
    if o == 0 {
        "struct"
    } else if o == 1 {
        "enum"
    } else if o == 2 {
        "trait"
    } else if o == 3 {
        "type"
    } else if o == 4 {
        "const"
    } else if o == 5 {
        "mod"
    } else {
        "fn"
    }
}

/// The count position of a native kind, if the counts show it.
fn label_slot(k: &str) -> (r: Option<usize>)
    ensures
        match kind_label(k@) {
            Some(l) => r == Some(l.1 as usize) && l.0 == label_at(l.1) && 0 <= l.1 < 7,
            None => r is None,
        },
{
    match umbrella_kind(k) {
        Some(SymbolKind::Struct) => Some(0),
        Some(SymbolKind::Enum) => Some(1),
        Some(SymbolKind::Trait) => Some(2),
        Some(SymbolKind::TypeAlias) => Some(3),
        Some(SymbolKind::Const) => Some(4),
        Some(SymbolKind::Module) => Some(5),
        Some(SymbolKind::Function) => Some(6),
        _ => None,
    }
}

// ---------------------------------------------------------------------------
// Inserting into an ordered list
// ---------------------------------------------------------------------------

/// Where `x` goes in `s`: after the last element it must not precede.
pub open spec fn ins_pos<T>(s: Seq<T>, x: T, after: spec_fn(T, T) -> bool) -> int
    decreases s.len(),
{
    if s.len() == 0 {
        0
    } else if after(s.last(), x) {
        ins_pos(s.drop_last(), x, after)
    } else {
        s.len() as int
    }
}

/// `s` stably sorted by insertion: each element in turn placed after the
/// last earlier one it must not precede.
pub open spec fn insertion_sorted<T>(s: Seq<T>, after: spec_fn(T, T) -> bool) -> Seq<T>
    decreases s.len(),
{
    if s.len() == 0 {
        s
    } else {
        let t = insertion_sorted(s.drop_last(), after);
        t.insert(ins_pos(t, s.last(), after), s.last())
    }
}

pub proof fn lemma_ins_pos_bounds<T>(s: Seq<T>, x: T, after: spec_fn(T, T) -> bool)
    ensures
        0 <= ins_pos(s, x, after) <= s.len(),
    decreases s.len(),
{
    if s.len() > 0 {
        lemma_ins_pos_bounds(s.drop_last(), x, after);
    }
}

pub proof fn lemma_insertion_sorted_len<T>(s: Seq<T>, after: spec_fn(T, T) -> bool)
    ensures
        insertion_sorted(s, after).len() == s.len(),
    decreases s.len(),
{
    if s.len() > 0 {
        lemma_insertion_sorted_len(s.drop_last(), after);
        lemma_ins_pos_bounds(insertion_sorted(s.drop_last(), after), s.last(), after);
    }
}

/// A step of the scan for an insertion point from the back.
proof fn lemma_ins_pos_step<T>(s: Seq<T>, j: int, x: T, after: spec_fn(T, T) -> bool)
    requires
        0 < j <= s.len(),
    ensures
        after(s[j - 1], x) ==> ins_pos(s.take(j), x, after) == ins_pos(s.take(j - 1), x, after),
        !after(s[j - 1], x) ==> ins_pos(s.take(j), x, after) == j,
{
    assert(s.take(j).drop_last() =~= s.take(j - 1));
}

// ---------------------------------------------------------------------------
// Splitting on `::`
// ---------------------------------------------------------------------------

/// Scanning left to right: the pieces closed so far and the open one. A
/// `:` after an unconsumed `:` closes the piece before them.
pub open spec fn colon_scan(s: Seq<char>) -> (Seq<Seq<char>>, Seq<char>)
    decreases s.len(),
{
    if s.len() == 0 {
        (seq![], seq![])
    } else {
        let (parts, cur) = colon_scan(s.drop_last());
        if s.last() == ':' && cur.len() > 0 && cur.last() == ':' {
            (parts.push(cur.drop_last()), seq![])
        } else {
            (parts, cur.push(s.last()))
        }
    }
}

/// The pieces between the non-overlapping `::` of `s`, found left to right
/// (`str::split("::")`).
pub open spec fn split_colons(s: Seq<char>) -> Seq<Seq<char>> {
    let (parts, cur) = colon_scan(s);
    parts.push(cur)
}

pub fn split_colons_exec(s: &str) -> (r: Vec<String>)
    ensures
        views(r@) == split_colons(s@),
{
    let v = chars_of(s);
    let mut parts: Vec<String> = Vec::new();
    let mut cur: Vec<char> = Vec::new();
    let mut i: usize = 0;
    assert(views(parts@) =~= Seq::<Seq<char>>::empty());
    assert(v@.take(0) =~= Seq::<char>::empty());
    while i < v.len()
        invariant
            i <= v.len(),
            v@ == s@,
            (views(parts@), cur@) == colon_scan(s@.take(i as int)),
        decreases v.len() - i,
    {
        assert(s@.take(i + 1).drop_last() =~= s@.take(i as int));
        let c = v[i];
        let n = cur.len();
        if c == ':' && n > 0 && cur[n - 1] == ':' {
            cur.pop();
            let piece = crate::text::string_from(&cur);
            let ghost before = views(parts@);
            parts.push(piece);
            assert(views(parts@) =~= before.push(cur@));
            cur = Vec::new();
            assert(cur@ =~= Seq::<char>::empty());
        } else {
            cur.push(c);
        }
        i += 1;
    }
    assert(s@.take(v.len() as int) =~= s@);
    let ghost before = views(parts@);
    let last = crate::text::string_from(&cur);
    parts.push(last);
    assert(views(parts@) =~= before.push(cur@));
    parts
}

// ---------------------------------------------------------------------------
// Directories
// ---------------------------------------------------------------------------

/// The components of a file's directory (`Path::parent`).
pub open spec fn parent_comps(file: Seq<char>) -> Seq<Seq<char>> {
    let c = components(file);
    if c.len() == 0 {
        c
    } else {
        c.drop_last()
    }
}

/// A directory clamped to `depth` components.
pub open spec fn limit_depth(dir: Seq<Seq<char>>, depth: Option<usize>) -> Seq<Seq<char>> {
    match depth {
        None => dir,
        Some(d) => if d < dir.len() { dir.take(d as int) } else { dir },
    }
}

/// The directory a file is grouped under.
pub open spec fn dir_at_depth(file: Seq<char>, depth: Option<usize>) -> Seq<Seq<char>> {
    limit_depth(parent_comps(file), depth)
}

fn parent_comps_exec(file: &str) -> (r: Vec<String>)
    ensures
        views(r@) == parent_comps(file@),
{
    let mut c = path_components(file);
    if c.len() > 0 {
        let ghost before = views(c@);
        c.pop();
        assert(views(c@) =~= before.drop_last());
    }
    c
}

fn limit_depth_exec(dir: Vec<String>, depth: Option<usize>) -> (r: Vec<String>)
    ensures
        views(r@) == limit_depth(views(dir@), depth),
{
    match depth {
        None => dir,
        Some(d) => {
            if d < dir.len() {
                let mut dir = dir;
                let ghost before = views(dir@);
                dir.truncate(d);
                assert(views(dir@) =~= before.take(d as int));
                dir
            } else {
                dir
            }
        },
    }
}

/// Do two component lists agree?
fn comps_eq(a: &Vec<String>, b: &Vec<String>) -> (r: bool)
    ensures
        r == (views(a@) == views(b@)),
{
    if a.len() != b.len() {
        assert(views(a@).len() != views(b@).len());
        return false;
    }
    let mut i: usize = 0;
    while i < a.len()
        invariant
            i <= a.len(),
            a.len() == b.len(),
            forall|j: int| 0 <= j < i ==> a@[j]@ == b@[j]@,
        decreases a.len() - i,
    {
        if !str_eq(a[i].as_str(), b[i].as_str()) {
            assert(views(a@)[i as int] != views(b@)[i as int]);
            return false;
        }
        i += 1;
    }
    assert(views(a@) =~= views(b@));
    true
}

/// A directory as the map prints it: its components joined by `/`.
pub open spec fn dir_text(dir: Seq<Seq<char>>) -> Seq<char> {
    join(dir, "/"@)
}

/// Component-wise order of two paths (`Path::cmp`).
pub open spec fn comps_order(a: Seq<Seq<char>>, b: Seq<Seq<char>>) -> int
    decreases a.len(),
{
    if a.len() == 0 {
        if b.len() == 0 { 0 } else { -1 }
    } else if b.len() == 0 {
        1
    } else if lex_order(a[0], b[0]) != 0 {
        lex_order(a[0], b[0])
    } else {
        comps_order(a.drop_first(), b.drop_first())
    }
}

fn comps_compare(a: &Vec<String>, b: &Vec<String>) -> (r: i8)
    ensures
        r as int == comps_order(views(a@), views(b@)),
{
    let mut i: usize = 0;
    assert(views(a@).skip(0) =~= views(a@));
    assert(views(b@).skip(0) =~= views(b@));
    while i < a.len() && i < b.len()
        invariant
            i <= a.len(),
            i <= b.len(),
            comps_order(views(a@), views(b@)) == comps_order(views(a@).skip(i as int), views(b@).skip(i as int)),
        decreases a.len() - i,
    {
        assert(views(a@).skip(i as int)[0] == a@[i as int]@);
        assert(views(b@).skip(i as int)[0] == b@[i as int]@);
        let c = lex_compare(&chars_of(a[i].as_str()), &chars_of(b[i].as_str()));
        if c != 0 {
            return c;
        }
        assert(views(a@).skip(i as int).drop_first() =~= views(a@).skip(i + 1));
        assert(views(b@).skip(i as int).drop_first() =~= views(b@).skip(i + 1));
        i += 1;
    }
    if i == a.len() {
        if i == b.len() {
            0
        } else {
            -1
        }
    } else {
        1
    }
}

} // verus!

verus! {

// ---------------------------------------------------------------------------
// Selecting files and symbols
// ---------------------------------------------------------------------------

/// A file with the indices of the symbols the map shows for it.
pub type FileEntryV = (Seq<char>, Seq<int>);

/// The files that define symbols, each once, in order of first appearance.
pub open spec fn distinct_files(ss: Seq<Symbol>) -> Seq<Seq<char>>
    decreases ss.len(),
{
    if ss.len() == 0 {
        seq![]
    } else {
        let d = distinct_files(ss.drop_last());
        if d.contains(ss.last().loc.file@) {
            d
        } else {
            d.push(ss.last().loc.file@)
        }
    }
}

/// Which symbols a file's list shows.
pub open spec fn shown_in(ss: Seq<Symbol>, f: Seq<char>, all: bool) -> spec_fn(int) -> bool {
    |j: int| ss[j].loc.file@ == f && map_keeps(ss[j], all)
}

/// Must symbol `a` come after symbol `b` in a file's list? By kind rank,
/// then by name.
pub open spec fn sym_after(ss: Seq<Symbol>) -> spec_fn(int, int) -> bool {
    |a: int, b: int| map_rank(ss[a].kind@) > map_rank(ss[b].kind@) || (map_rank(ss[a].kind@) == map_rank(ss[b].kind@)
        && lex_order(ss[a].name@, ss[b].name@) > 0)
}

/// A file's list: the symbols it shows, in index order, stably sorted by
/// kind rank and name.
pub open spec fn file_symbols(ss: Seq<Symbol>, f: Seq<char>, all: bool) -> Seq<int> {
    insertion_sorted(indices_where(ss.len(), shown_in(ss, f, all)), sym_after(ss))
}

pub open spec fn file_entry(ss: Seq<Symbol>, all: bool) -> spec_fn(Seq<char>) -> FileEntryV {
    |f: Seq<char>| (f, file_symbols(ss, f, all))
}

/// Files whose path contains `p`.
pub open spec fn entry_in_path(p: Seq<char>) -> spec_fn(FileEntryV) -> bool {
    |e: FileEntryV| contains(e.0, p)
}

/// Files that are not generated code.
pub open spec fn entry_not_generated() -> spec_fn(FileEntryV) -> bool {
    |e: FileEntryV| !is_generated_spec(e.0)
}

/// Must file entry `a` come after `b`? By path, component-wise.
pub open spec fn file_after() -> spec_fn(FileEntryV, FileEntryV) -> bool {
    |a: FileEntryV, b: FileEntryV| comps_order(components(a.0), components(b.0)) > 0
}

/// The files the map covers, with their lists, sorted by path; and how many
/// generated files were left out.
pub open spec fn map_selection(ss: Seq<Symbol>, in_path: Option<Seq<char>>, all: bool, include_generated: bool) -> (
    Seq<FileEntryV>,
    nat,
) {
    let entries = distinct_files(ss).map_values(file_entry(ss, all));
    let inp = match in_path {
        Some(p) => entries.filter(entry_in_path(p)),
        None => entries,
    };
    let kept = if include_generated {
        inp
    } else {
        inp.filter(entry_not_generated())
    };
    (insertion_sorted(kept, file_after()), (inp.len() - kept.len()) as nat)
}

/// Does the list hold `x`?
fn holds_str(v: &Vec<String>, x: &str) -> (r: bool)
    ensures
        r == views(v@).contains(x@),
{
    let mut i: usize = 0;
    while i < v.len()
        invariant
            i <= v.len(),
            forall|j: int| 0 <= j < i ==> v@[j]@ != x@,
        decreases v.len() - i,
    {
        if str_eq(v[i].as_str(), x) {
            assert(views(v@)[i as int] == x@);
            return true;
        }
        i += 1;
    }
    assert forall|j: int| 0 <= j < views(v@).len() implies views(v@)[j] != x@ by {
        assert(views(v@)[j] == v@[j]@);
    }
    false
}

fn distinct_files_exec(ss: &Vec<Symbol>) -> (r: Vec<String>)
    ensures
        views(r@) == distinct_files(ss@),
{
    let mut r: Vec<String> = Vec::new();
    let mut i: usize = 0;
    assert(ss@.take(0) =~= Seq::<Symbol>::empty());
    assert(views(r@) =~= Seq::<Seq<char>>::empty());
    while i < ss.len()
        invariant
            i <= ss.len(),
            views(r@) == distinct_files(ss@.take(i as int)),
        decreases ss.len() - i,
    {
        assert(ss@.take(i + 1).drop_last() =~= ss@.take(i as int));
        if !holds_str(&r, ss[i].loc.file.as_str()) {
            let ghost before = views(r@);
            r.push(owned(ss[i].loc.file.as_str()));
            assert(views(r@) =~= before.push(ss@[i as int].loc.file@));
        }
        i += 1;
    }
    assert(ss@.take(ss.len() as int) =~= ss@);
    r
}

/// Insert symbol index `x` into a file's sorted list.
fn insert_symbol(r: &mut Vec<usize>, x: usize, ss: &Vec<Symbol>)
    requires
        x < ss.len(),
        forall|k: int| 0 <= k < old(r)@.len() ==> #[trigger] old(r)@[k] < ss.len(),
    ensures
        ints(final(r)@) == ints(old(r)@).insert(ins_pos(ints(old(r)@), x as int, sym_after(ss@)), x as int),
        forall|k: int| 0 <= k < final(r)@.len() ==> #[trigger] final(r)@[k] < ss.len(),
{
    let ghost s0 = ints(r@);
    let xr = map_rank_of(ss[x].kind.as_str());
    let xn = chars_of(ss[x].name.as_str());
    let mut j: usize = r.len();
    assert(s0.take(j as int) =~= s0);
    while j > 0
        invariant
            j <= r.len(),
            s0 == ints(r@),
            x < ss.len(),
            xr as int == map_rank(ss@[x as int].kind@),
            xn@ == ss@[x as int].name@,
            forall|k: int| 0 <= k < r@.len() ==> #[trigger] r@[k] < ss.len(),
            ins_pos(s0, x as int, sym_after(ss@)) == ins_pos(s0.take(j as int), x as int, sym_after(ss@)),
        ensures
            j <= r.len(),
            s0 == ints(r@),
            forall|k: int| 0 <= k < r@.len() ==> #[trigger] r@[k] < ss.len(),
            ins_pos(s0, x as int, sym_after(ss@)) == j as int,
        decreases j,
    {
        let y = r[j - 1];
        assert(r@[j - 1] < ss.len());
        let yr = map_rank_of(ss[y].kind.as_str());
        let after = if yr > xr {
            true
        } else if yr == xr {
            lex_compare(&chars_of(ss[y].name.as_str()), &xn) > 0
        } else {
            false
        };
        proof {
            assert(s0[j - 1] == y as int);
            lemma_ins_pos_step(s0, j as int, x as int, sym_after(ss@));
            assert(after == sym_after(ss@)(s0[j - 1], x as int));
        }
        if !after {
            break;
        }
        j -= 1;
    }
    r.insert(j, x);
    assert(ints(r@) =~= s0.insert(j as int, x as int));
}


/// A file's list (see [`file_symbols`]).
fn file_symbols_exec(ss: &Vec<Symbol>, f: &str, all: bool) -> (r: Vec<usize>)
    ensures
        ints(r@) == file_symbols(ss@, f@, all),
        forall|k: int| 0 <= k < r@.len() ==> #[trigger] r@[k] < ss.len(),
{
    let ghost hit = shown_in(ss@, f@, all);
    let ghost after = sym_after(ss@);
    let mut found: Vec<usize> = Vec::new();
    let mut i: usize = 0;
    assert(ints(found@) =~= Seq::<int>::empty());
    while i < ss.len()
        invariant
            i <= ss.len(),
            hit == shown_in(ss@, f@, all),
            ints(found@) == indices_where(i as nat, hit),
            forall|k: int| 0 <= k < found@.len() ==> #[trigger] found@[k] < i,
        decreases ss.len() - i,
    {
        if str_eq(ss[i].loc.file.as_str(), f) && keeps(&ss[i], all) {
            let ghost before = ints(found@);
            found.push(i);
            assert(ints(found@) =~= before.push(i as int));
        }
        i += 1;
    }
    let ghost src = ints(found@);
    let mut r: Vec<usize> = Vec::new();
    let mut k: usize = 0;
    assert(src.take(0) =~= Seq::<int>::empty());
    assert(ints(r@) =~= Seq::<int>::empty());
    while k < found.len()
        invariant
            k <= found.len(),
            src == ints(found@),
            after == sym_after(ss@),
            forall|m: int| 0 <= m < found@.len() ==> #[trigger] found@[m] < ss.len(),
            forall|m: int| 0 <= m < r@.len() ==> #[trigger] r@[m] < ss.len(),
            ints(r@) == insertion_sorted(src.take(k as int), after),
        decreases found.len() - k,
    {
        assert(src.take(k + 1).drop_last() =~= src.take(k as int));
        assert(src.take(k + 1).last() == found@[k as int] as int);
        insert_symbol(&mut r, found[k], ss);
        k += 1;
    }
    assert(src.take(found.len() as int) =~= src);
    r
}

/// The entries for the files, in order (see [`file_entry`]).
fn file_entries(ss: &Vec<Symbol>, files: &Vec<String>, all: bool) -> (r: Vec<(String, Vec<usize>)>)
    ensures
        table_view(r@) == views(files@).map_values(file_entry(ss@, all)),
        entries_bounded(r@, ss@.len()),
{
    let mut r: Vec<(String, Vec<usize>)> = Vec::new();
    let mut i: usize = 0;
    while i < files.len()
        invariant
            i <= files.len(),
            table_view(r@) == views(files@).take(i as int).map_values(file_entry(ss@, all)),
            entries_bounded(r@, ss@.len()),
        decreases files.len() - i,
    {
        let list = file_symbols_exec(ss, files[i].as_str(), all);
        let ghost before = table_view(r@);
        let ghost old_r = r@;
        let ghost lv = list@;
        r.push((owned(files[i].as_str()), list));
        assert forall|a: int, k: int| 0 <= a < r@.len() && 0 <= k < r@[a].1@.len() implies #[trigger] r@[a].1@[k] < ss@.len() by {
            if a < old_r.len() {
                assert(r@[a] == old_r[a]);
                assert(old_r[a].1@[k] < ss@.len());
            } else {
                assert(r@[a].1@ == lv);
                assert(lv[k] < ss@.len());
            }
        }
        assert(table_view(r@) =~= before.push((files@[i as int]@, file_symbols(ss@, files@[i as int]@, all))));
        assert(views(files@).take(i + 1) =~= views(files@).take(i as int).push(files@[i as int]@));
        assert(views(files@).take(i + 1).map_values(file_entry(ss@, all)) =~= views(files@).take(i as int).map_values(
            file_entry(ss@, all),
        ).push(file_entry(ss@, all)(files@[i as int]@)));
        i += 1;
    }
    assert(views(files@).take(files.len() as int) =~= views(files@));
    r
}

/// Every symbol index in the entries is below `n`.
pub open spec fn entries_bounded(t: Seq<(String, Vec<usize>)>, n: nat) -> bool {
    forall|i: int, k: int| 0 <= i < t.len() && 0 <= k < t[i].1@.len() ==> #[trigger] t[i].1@[k] < n
}

/// Insert a file entry into the list sorted by path.
fn insert_entry(r: &mut Vec<(String, Vec<usize>)>, x: (String, Vec<usize>), Ghost(n): Ghost<nat>)
    requires
        entries_bounded(old(r)@, n),
        forall|k: int| 0 <= k < x.1@.len() ==> #[trigger] x.1@[k] < n,
    ensures
        entries_bounded(final(r)@, n),
        table_view(final(r)@) == table_view(old(r)@).insert(
            ins_pos(table_view(old(r)@), (x.0@, ints(x.1@)), file_after()),
            (x.0@, ints(x.1@)),
        ),
{
    let ghost s0 = table_view(r@);
    let ghost xv = (x.0@, ints(x.1@));
    let xc = path_components(x.0.as_str());
    let mut j: usize = r.len();
    assert(s0.take(j as int) =~= s0);
    while j > 0
        invariant
            j <= r.len(),
            s0 == table_view(r@),
            views(xc@) == components(xv.0),
            ins_pos(s0, xv, file_after()) == ins_pos(s0.take(j as int), xv, file_after()),
        ensures
            j <= r.len(),
            s0 == table_view(r@),
            ins_pos(s0, xv, file_after()) == j as int,
        decreases j,
    {
        let yc = path_components(r[j - 1].0.as_str());
        let after = comps_compare(&yc, &xc) > 0;
        proof {
            lemma_ins_pos_step(s0, j as int, xv, file_after());
            assert(s0[j - 1].0 == r@[j - 1].0@);
        }
        if !after {
            break;
        }
        j -= 1;
    }
    let ghost old_r = r@;
    let ghost xl = x.1@;
    r.insert(j, x);
    assert(table_view(r@) =~= s0.insert(j as int, xv));
    assert forall|i: int, k: int| 0 <= i < r@.len() && 0 <= k < r@[i].1@.len() implies #[trigger] r@[i].1@[k] < n by {
        if i < j {
            assert(r@[i] == old_r[i]);
            assert(old_r[i].1@[k] < n);
        } else if i > j {
            assert(r@[i] == old_r[i - 1]);
            assert(old_r[i - 1].1@[k] < n);
        } else {
            assert(r@[i].1@ == xl);
            assert(xl[k] < n);
        }
    }
}

/// The files the map covers, with their lists, sorted by path; and how many
/// generated files were left out (see [`map_selection`]).
pub fn map_files(index: &Index, in_path: Option<&str>, all: bool, include_generated: bool) -> (r: (
    Vec<(String, Vec<usize>)>,
    usize,
))
    ensures
        (table_view(r.0@), r.1 as nat) == map_selection(
            index.symbols@,
            match in_path {
                Some(p) => Some(p@),
                None => None,
            },
            all,
            include_generated,
        ),
        entries_bounded(r.0@, index.symbols@.len()),
{
    let ss = &index.symbols;
    let files = distinct_files_exec(ss);
    let entries = file_entries(ss, &files, all);
    let ghost ev = table_view(entries@);
    assert(ev.len() == entries.len());
    let ghost ip: Option<Seq<char>> = match in_path {
        Some(p) => Some(p@),
        None => None,
    };
    // Filter by path.
    let mut inp: Vec<(String, Vec<usize>)> = Vec::new();
    let mut rest = entries;
    let ghost inp_v = match ip {
        Some(p) => ev.filter(entry_in_path(p)),
        None => ev,
    };
    let mut i: usize = 0;
    assert(table_view(inp@) =~= Seq::<FileEntryV>::empty());
    while rest.len() > 0
        invariant
            i + rest.len() == ev.len(),
            ev.len() <= usize::MAX,
            table_view(rest@) == ev.skip(i as int),
            ip == match in_path {
                Some(p) => Some(p@),
                None => None::<Seq<char>>,
            },
            table_view(inp@) == match ip {
                Some(p) => ev.take(i as int).filter(entry_in_path(p)),
                None => ev.take(i as int),
            },
            entries_bounded(rest@, ss@.len()),
            entries_bounded(inp@, ss@.len()),
        decreases rest.len(),
    {
        let ghost rv = table_view(rest@);
        let ghost old_rest = rest@;
        assert(entries_bounded(old_rest, ss@.len()));
        let e = rest.remove(0);
        assert(entries_bounded(rest@, ss@.len())) by {
            assert forall|a: int, k: int| 0 <= a < rest@.len() && 0 <= k < rest@[a].1@.len() implies #[trigger] rest@[a].1@[k] < ss@.len() by {
                assert(rest@[a] == old_rest[a + 1]);
                assert(0 <= a + 1 < old_rest.len() && 0 <= k < old_rest[a + 1].1@.len());
                assert(old_rest[a + 1].1@[k] < ss@.len());
            }
        }
        assert(table_view(rest@) =~= rv.drop_first());
        assert(ev.skip(i as int).drop_first() =~= ev.skip(i + 1));
        assert(ev[i as int] == rv[0]);
        let ghost ex = (e.0@, ints(e.1@));
        assert(ex == ev[i as int]);
        let keep = match in_path {
            Some(p) => str_contains(e.0.as_str(), p),
            None => true,
        };
        proof {
            match ip {
                Some(p) => {
                    lemma_filter_step(ev, i as int, entry_in_path(p));
                },
                None => {
                    assert(ev.take(i + 1) =~= ev.take(i as int).push(ev[i as int]));
                },
            }
        }
        if keep {
            let ghost before = table_view(inp@);
            let ghost old_inp = inp@;
            inp.push(e);
            assert forall|a: int, k: int| 0 <= a < inp@.len() && 0 <= k < inp@[a].1@.len() implies #[trigger] inp@[a].1@[k] < ss@.len() by {
                if a < old_inp.len() {
                    assert(inp@[a] == old_inp[a]);
                    assert(old_inp[a].1@[k] < ss@.len());
                } else {
                    assert(inp@[a] == old_rest[0]);
                    assert(old_rest[0].1@[k] < ss@.len());
                }
            }
            assert(table_view(inp@) =~= before.push(ex));
        }
        i += 1;
    }
    assert(ev.take(i as int) =~= ev);
    let ghost iv = table_view(inp@);
    assert(iv.len() == inp.len());
    assert(iv == inp_v);
    // Leave out generated files.
    let mut kept: Vec<(String, Vec<usize>)> = Vec::new();
    let mut excluded: usize = 0;
    let mut rest = inp;
    let mut i: usize = 0;
    assert(table_view(kept@) =~= Seq::<FileEntryV>::empty());
    while rest.len() > 0
        invariant
            i + rest.len() == iv.len(),
            iv.len() <= usize::MAX,
            table_view(rest@) == iv.skip(i as int),
            table_view(kept@) == if include_generated {
                iv.take(i as int)
            } else {
                iv.take(i as int).filter(entry_not_generated())
            },
            kept.len() + excluded == i,
            entries_bounded(rest@, ss@.len()),
            entries_bounded(kept@, ss@.len()),
        decreases rest.len(),
    {
        let ghost rv = table_view(rest@);
        let ghost old_rest = rest@;
        assert(entries_bounded(old_rest, ss@.len()));
        let e = rest.remove(0);
        assert(entries_bounded(rest@, ss@.len())) by {
            assert forall|a: int, k: int| 0 <= a < rest@.len() && 0 <= k < rest@[a].1@.len() implies #[trigger] rest@[a].1@[k] < ss@.len() by {
                assert(rest@[a] == old_rest[a + 1]);
                assert(0 <= a + 1 < old_rest.len() && 0 <= k < old_rest[a + 1].1@.len());
                assert(old_rest[a + 1].1@[k] < ss@.len());
            }
        }
        assert(table_view(rest@) =~= rv.drop_first());
        assert(iv.skip(i as int).drop_first() =~= iv.skip(i + 1));
        assert(iv[i as int] == rv[0]);
        let ghost ex = (e.0@, ints(e.1@));
        let keep = include_generated || !is_generated(e.0.as_str());
        proof {
            lemma_filter_step(iv, i as int, entry_not_generated());
            assert(iv.take(i + 1) =~= iv.take(i as int).push(iv[i as int]));
        }
        if keep {
            let ghost before = table_view(kept@);
            let ghost old_kept = kept@;
            kept.push(e);
            assert forall|a: int, k: int| 0 <= a < kept@.len() && 0 <= k < kept@[a].1@.len() implies #[trigger] kept@[a].1@[k] < ss@.len() by {
                if a < old_kept.len() {
                    assert(kept@[a] == old_kept[a]);
                    assert(old_kept[a].1@[k] < ss@.len());
                } else {
                    assert(kept@[a] == old_rest[0]);
                    assert(old_rest[0].1@[k] < ss@.len());
                }
            }
            assert(table_view(kept@) =~= before.push(ex));
        } else {
            excluded += 1;
        }
        i += 1;
    }
    assert(iv.take(i as int) =~= iv);
    let ghost kv = table_view(kept@);
    assert(kv.len() == kept.len());
    // Sort by path.
    let mut sorted: Vec<(String, Vec<usize>)> = Vec::new();
    let mut rest = kept;
    let mut i: usize = 0;
    assert(kv.take(0) =~= Seq::<FileEntryV>::empty());
    assert(table_view(sorted@) =~= Seq::<FileEntryV>::empty());
    while rest.len() > 0
        invariant
            i + rest.len() == kv.len(),
            kv.len() <= usize::MAX,
            table_view(rest@) == kv.skip(i as int),
            table_view(sorted@) == insertion_sorted(kv.take(i as int), file_after()),
            entries_bounded(rest@, ss@.len()),
            entries_bounded(sorted@, ss@.len()),
        decreases rest.len(),
    {
        let ghost rv = table_view(rest@);
        let ghost old_rest = rest@;
        assert(entries_bounded(old_rest, ss@.len()));
        let e = rest.remove(0);
        assert(entries_bounded(rest@, ss@.len())) by {
            assert forall|a: int, k: int| 0 <= a < rest@.len() && 0 <= k < rest@[a].1@.len() implies #[trigger] rest@[a].1@[k] < ss@.len() by {
                assert(rest@[a] == old_rest[a + 1]);
                assert(0 <= a + 1 < old_rest.len() && 0 <= k < old_rest[a + 1].1@.len());
                assert(old_rest[a + 1].1@[k] < ss@.len());
            }
        }
        assert(table_view(rest@) =~= rv.drop_first());
        assert(kv.skip(i as int).drop_first() =~= kv.skip(i + 1));
        assert(kv[i as int] == rv[0]);
        assert(kv.take(i + 1).drop_last() =~= kv.take(i as int));
        assert(forall|k: int| 0 <= k < e.1@.len() ==> #[trigger] e.1@[k] < ss@.len()) by {
            assert forall|k: int| 0 <= k < e.1@.len() implies #[trigger] e.1@[k] < ss@.len() by {
                assert(e == old_rest[0]);
            }
        }
        insert_entry(&mut sorted, e, Ghost(ss@.len()));
        i += 1;
    }
    assert(kv.take(i as int) =~= kv);
    (sorted, excluded)
}

}

verus! {

// ---------------------------------------------------------------------------
// Grouping by directory
// ---------------------------------------------------------------------------

/// A directory with the positions of its files in the file list.
pub type GroupV = (Seq<Seq<char>>, Seq<int>);

/// The position of directory `d` among the groups (the last one naming it),
/// or -1.
pub open spec fn group_index(gs: Seq<GroupV>, d: Seq<Seq<char>>) -> int
    decreases gs.len(),
{
    if gs.len() == 0 {
        -1
    } else if gs.last().0 == d {
        gs.len() - 1
    } else {
        group_index(gs.drop_last(), d)
    }
}

proof fn lemma_group_index_bounds(gs: Seq<GroupV>, d: Seq<Seq<char>>)
    ensures
        -1 <= group_index(gs, d) < gs.len(),
        group_index(gs, d) >= 0 ==> gs[group_index(gs, d)].0 == d,
    decreases gs.len(),
{
    if gs.len() > 0 {
        lemma_group_index_bounds(gs.drop_last(), d);
    }
}

/// The files grouped by their directory clamped to `depth`: directories in
/// order of first appearance, each with its files in list order.
pub open spec fn group_dirs(files: Seq<FileEntryV>, depth: Option<usize>) -> Seq<GroupV>
    decreases files.len(),
{
    if files.len() == 0 {
        seq![]
    } else {
        let gs = group_dirs(files.drop_last(), depth);
        let i = files.len() - 1;
        let d = dir_at_depth(files.last().0, depth);
        let g = group_index(gs, d);
        if g >= 0 {
            gs.update(g, (d, gs[g].1.push(i)))
        } else {
            gs.push((d, seq![i]))
        }
    }
}

pub open spec fn groups_view(gs: Seq<(Vec<String>, Vec<usize>)>) -> Seq<GroupV> {
    gs.map_values(|g: (Vec<String>, Vec<usize>)| (views(g.0@), ints(g.1@)))
}

fn group_dirs_exec(files: &Vec<(String, Vec<usize>)>, depth: Option<usize>) -> (r: Vec<(Vec<String>, Vec<usize>)>)
    ensures
        groups_view(r@) == group_dirs(table_view(files@), depth),
        forall|g: int, k: int| 0 <= g < r@.len() && 0 <= k < r@[g].1@.len() ==> #[trigger] r@[g].1@[k] < files@.len(),
{
    let ghost fv = table_view(files@);
    let mut gs: Vec<(Vec<String>, Vec<usize>)> = Vec::new();
    let mut i: usize = 0;
    assert(fv.take(0) =~= Seq::<FileEntryV>::empty());
    assert(groups_view(gs@) =~= Seq::<GroupV>::empty());
    while i < files.len()
        invariant
            i <= files.len(),
            fv == table_view(files@),
            groups_view(gs@) == group_dirs(fv.take(i as int), depth),
            forall|g: int, k: int| 0 <= g < gs@.len() && 0 <= k < gs@[g].1@.len() ==> #[trigger] gs@[g].1@[k] < i,
        decreases files.len() - i,
    {
        let ghost gv = groups_view(gs@);
        assert(fv.take(i + 1).drop_last() =~= fv.take(i as int));
        assert(fv.take(i + 1).last() == fv[i as int]);
        assert(fv[i as int].0 == files@[i as int].0@);
        let d = limit_depth_exec(parent_comps_exec(files[i].0.as_str()), depth);
        let mut g: usize = gs.len();
        let mut found = false;
        assert(gv.take(g as int) =~= gv);
        while g > 0
            invariant_except_break
                !found,
                group_index(gv, views(d@)) == group_index(gv.take(g as int), views(d@)),
            invariant
                g <= gs.len(),
                gv == groups_view(gs@),
            ensures
                g <= gs.len(),
                gv == groups_view(gs@),
                found ==> g < gs.len() && group_index(gv, views(d@)) == g as int,
                !found ==> group_index(gv, views(d@)) == -1,
            decreases g,
        {
            assert(gv.take(g as int).drop_last() =~= gv.take(g - 1));
            assert(gv[g - 1].0 == views(gs@[g - 1].0@));
            if comps_eq(&gs[g - 1].0, &d) {
                g -= 1;
                found = true;
                break;
            }
            g -= 1;
        }
        proof {
            lemma_group_index_bounds(gv, views(d@));
        }
        let ghost old_gs = gs@;
        if found {
            let (gd, mut list) = gs.remove(g);
            let ghost old_list = list@;
            assert(views(gd@) == gv[g as int].0 && ints(old_list) == gv[g as int].1);
            list.push(i);
            assert(ints(list@) =~= ints(old_list).push(i as int));
            gs.insert(g, (gd, list));
            assert(gs@ =~= old_gs.update(g as int, gs@[g as int]));
            assert(groups_view(gs@) =~= gv.update(g as int, (views(d@), gv[g as int].1.push(i as int))));
            assert forall|a: int, k: int| 0 <= a < gs@.len() && 0 <= k < gs@[a].1@.len() implies #[trigger] gs@[a].1@[k] < i + 1 by {
                if a != g {
                    assert(gs@[a] == old_gs[a]);
                } else if k < old_gs[a].1@.len() {
                    assert(gs@[a].1@[k] == old_gs[a].1@[k]);
                }
            }
        } else {
            let mut list: Vec<usize> = Vec::new();
            list.push(i);
            assert(ints(list@) =~= seq![i as int]);
            gs.push((d, list));
            assert(groups_view(gs@) =~= gv.push((views(d@), seq![i as int])));
            assert forall|a: int, k: int| 0 <= a < gs@.len() && 0 <= k < gs@[a].1@.len() implies #[trigger] gs@[a].1@[k] < i + 1 by {
                if a < old_gs.len() {
                    assert(gs@[a] == old_gs[a]);
                }
            }
        }
        i += 1;
    }
    assert(fv.take(files.len() as int) =~= fv);
    gs
}

// ---------------------------------------------------------------------------
// Counting symbols by kind
// ---------------------------------------------------------------------------

/// A count, held at the largest `usize` (which no real index reaches).
pub open spec fn capped(n: int) -> nat {
    if n > usize::MAX {
        usize::MAX as nat
    } else if n < 0 {
        0
    } else {
        n as nat
    }
}

/// How many symbols of a file's list fall in count position `o`.
pub open spec fn list_slot_count(list: Seq<int>, ss: Seq<Symbol>, o: int) -> nat
    decreases list.len(),
{
    if list.len() == 0 {
        0
    } else {
        list_slot_count(list.drop_last(), ss, o) + if kind_label(ss[list.last()].kind@) matches Some(l) && l.1 == o {
            1nat
        } else {
            0nat
        }
    }
}

/// How many symbols of a group's files fall in count position `o`.
pub open spec fn slot_count(files: Seq<FileEntryV>, idxs: Seq<int>, ss: Seq<Symbol>, o: int) -> nat
    decreases idxs.len(),
{
    if idxs.len() == 0 {
        0
    } else {
        slot_count(files, idxs.drop_last(), ss, o) + list_slot_count(files[idxs.last()].1, ss, o)
    }
}

/// The non-zero counts of the first `upto` positions, in position order.
pub open spec fn kind_counts_upto(files: Seq<FileEntryV>, idxs: Seq<int>, ss: Seq<Symbol>, upto: int) -> Seq<
    (Seq<char>, nat),
>
    decreases upto,
{
    if upto <= 0 {
        seq![]
    } else {
        let prev = kind_counts_upto(files, idxs, ss, upto - 1);
        let c = capped(slot_count(files, idxs, ss, upto - 1) as int);
        if c > 0 {
            prev.push((label_at(upto - 1), c))
        } else {
            prev
        }
    }
}

/// A group's symbol counts by kind: struct, enum, trait, type, const, mod,
/// fn, leaving out kinds it has none of.
pub open spec fn kind_counts(files: Seq<FileEntryV>, idxs: Seq<int>, ss: Seq<Symbol>) -> Seq<(Seq<char>, nat)> {
    kind_counts_upto(files, idxs, ss, 7)
}

pub open spec fn counts_view(cs: Seq<(&'static str, usize)>) -> Seq<(Seq<char>, nat)> {
    cs.map_values(|c: (&'static str, usize)| (c.0@, c.1 as nat))
}

fn kind_counts_exec(files: &Vec<(String, Vec<usize>)>, idxs: &Vec<usize>, ss: &Vec<Symbol>) -> (r: Vec<(&'static str, usize)>)
    requires
        forall|k: int| 0 <= k < idxs@.len() ==> #[trigger] idxs@[k] < files@.len(),
        entries_bounded(files@, ss@.len()),
    ensures
        counts_view(r@) == kind_counts(table_view(files@), ints(idxs@), ss@),
{
    let ghost fv = table_view(files@);
    let ghost iv = ints(idxs@);
    let mut counts: Vec<usize> = vec![0, 0, 0, 0, 0, 0, 0];
    let mut i: usize = 0;
    assert(iv.take(0) =~= Seq::<int>::empty());
    while i < idxs.len()
        invariant
            i <= idxs.len(),
            fv == table_view(files@),
            iv == ints(idxs@),
            forall|k: int| 0 <= k < idxs@.len() ==> #[trigger] idxs@[k] < files@.len(),
            entries_bounded(files@, ss@.len()),
            counts@.len() == 7,
            forall|o: int| 0 <= o < 7 ==> #[trigger] counts@[o] as nat == capped(slot_count(fv, iv.take(i as int), ss@, o) as int),
        decreases idxs.len() - i,
    {
        let f = idxs[i];
        assert(idxs@[i as int] < files@.len());
        assert(iv.take(i + 1).drop_last() =~= iv.take(i as int));
        assert(iv.take(i + 1).last() == f as int);
        let list = &files[f].1;
        let ghost lv = ints(list@);
        assert(fv[f as int].1 == lv);
        let ghost base = counts@;
        let mut k: usize = 0;
        assert(lv.take(0) =~= Seq::<int>::empty());
        while k < list.len()
            invariant
                k <= list.len(),
                lv == ints(list@),
                forall|m: int| 0 <= m < list@.len() ==> #[trigger] list@[m] < ss@.len(),
                counts@.len() == 7,
                forall|o: int| 0 <= o < 7 ==> #[trigger] counts@[o] as nat == capped(
                    (slot_count(fv, iv.take(i as int), ss@, o) + list_slot_count(lv.take(k as int), ss@, o)) as int,
                ),
            decreases list.len() - k,
        {
            let sidx = list[k];
            assert(list@[k as int] < ss@.len());
            assert(lv.take(k + 1).drop_last() =~= lv.take(k as int));
            assert(lv.take(k + 1).last() == sidx as int);
            match label_slot(ss[sidx].kind.as_str()) {
                Some(o) => {
                    let c = counts[o];
                    counts.set(o, c.saturating_add(1));
                },
                None => {},
            }
            k += 1;
        }
        assert(lv.take(list.len() as int) =~= lv);
        i += 1;
    }
    assert(iv.take(idxs.len() as int) =~= iv);
    let mut r: Vec<(&'static str, usize)> = Vec::new();
    let mut o: usize = 0;
    while o < 7
        invariant
            o <= 7,
            counts@.len() == 7,
            forall|q: int| 0 <= q < 7 ==> #[trigger] counts@[q] as nat == capped(slot_count(fv, iv, ss@, q) as int),
            counts_view(r@) == kind_counts_upto(fv, iv, ss@, o as int),
        decreases 7 - o,
    {
        let c = counts[o];
        if c > 0 {
            let ghost before = counts_view(r@);
            r.push((label_of(o), c));
            assert(counts_view(r@) =~= before.push((label_at(o as int), c as nat)));
        }
        o += 1;
    }
    r
}

}

verus! {

// ---------------------------------------------------------------------------
// Module paths to directories
// ---------------------------------------------------------------------------

/// A module path prefix and the directory of the file that declared it.
pub type ModEntryV = (Seq<char>, Seq<Seq<char>>);

/// Every `::`-prefix of a symbol's qualified name (`crate`, `crate::ir`,
/// `crate::ir::types`, ...), each with the symbol's directory.
pub open spec fn prefix_entries(s: Symbol) -> Seq<ModEntryV> {
    let parts = split_colons(s.qualified_name@);
    Seq::new(parts.len(), |k: int| (join(parts.take(k + 1), "::"@), parent_comps(s.loc.file@)))
}

/// The prefixes of all symbols, in index order; the first entry for a
/// prefix is the one that counts.
pub open spec fn module_entries(ss: Seq<Symbol>) -> Seq<ModEntryV>
    decreases ss.len(),
{
    if ss.len() == 0 {
        seq![]
    } else {
        module_entries(ss.drop_last()) + prefix_entries(ss.last())
    }
}

/// The directory of the first entry for `key`.
pub open spec fn first_dir(es: Seq<ModEntryV>, key: Seq<char>) -> Option<Seq<Seq<char>>>
    decreases es.len(),
{
    if es.len() == 0 {
        None
    } else if es[0].0 == key {
        Some(es[0].1)
    } else {
        first_dir(es.drop_first(), key)
    }
}

pub open spec fn mod_view(es: Seq<(String, Vec<String>)>) -> Seq<ModEntryV> {
    es.map_values(|e: (String, Vec<String>)| (e.0@, views(e.1@)))
}

fn copy_strings(v: &Vec<String>) -> (r: Vec<String>)
    ensures
        views(r@) == views(v@),
{
    let mut r: Vec<String> = Vec::new();
    let mut i: usize = 0;
    while i < v.len()
        invariant
            i <= v.len(),
            views(r@) == views(v@).take(i as int),
        decreases v.len() - i,
    {
        let ghost before = views(r@);
        r.push(owned(v[i].as_str()));
        assert(views(r@) =~= before.push(v@[i as int]@));
        assert(views(v@).take(i + 1) =~= views(v@).take(i as int).push(v@[i as int]@));
        i += 1;
    }
    assert(views(v@).take(v.len() as int) =~= views(v@));
    r
}

/// The `::`-joined prefixes of the parts: the first part, the first two, ...
fn prefixes_of(parts: &Vec<String>) -> (r: Vec<String>)
    ensures
        r@.len() == parts@.len(),
        forall|k: int| 0 <= k < r@.len() ==> #[trigger] r@[k]@ == join(views(parts@).take(k + 1), "::"@),
{
    let ghost pv = views(parts@);
    let mut r: Vec<String> = Vec::new();
    let mut cur = String::new();
    let mut k: usize = 0;
    while k < parts.len()
        invariant
            k <= parts.len(),
            pv == views(parts@),
            r@.len() == k,
            forall|m: int| 0 <= m < k ==> #[trigger] r@[m]@ == join(pv.take(m + 1), "::"@),
            k > 0 ==> cur@ == join(pv.take(k as int), "::"@),
        decreases parts.len() - k,
    {
        proof {
            assert(pv.take(k + 1) =~= pv.take(k as int).push(pv[k as int]));
            crate::text::lemma_join_push(pv.take(k as int), "::"@, pv[k as int]);
        }
        if k == 0 {
            cur = owned(parts[0].as_str());
        } else {
            push_str(&mut cur, "::");
            push_str(&mut cur, parts[k].as_str());
        }
        assert(pv[k as int] == parts@[k as int]@);
        r.push(owned(cur.as_str()));
        k += 1;
    }
    r
}

/// Every symbol's prefixes with its directory (see [`module_entries`]).
fn module_entries_exec(ss: &Vec<Symbol>) -> (r: Vec<(String, Vec<String>)>)
    ensures
        mod_view(r@) == module_entries(ss@),
{
    let mut r: Vec<(String, Vec<String>)> = Vec::new();
    let mut i: usize = 0;
    assert(ss@.take(0) =~= Seq::<Symbol>::empty());
    assert(mod_view(r@) =~= Seq::<ModEntryV>::empty());
    while i < ss.len()
        invariant
            i <= ss.len(),
            mod_view(r@) == module_entries(ss@.take(i as int)),
        decreases ss.len() - i,
    {
        let ghost base = mod_view(r@);
        let ghost pe = prefix_entries(ss@[i as int]);
        let parts = split_colons_exec(ss[i].qualified_name.as_str());
        let pre = prefixes_of(&parts);
        let dir = parent_comps_exec(ss[i].loc.file.as_str());
        let mut k: usize = 0;
        assert(pe.take(0) =~= Seq::<ModEntryV>::empty());
        assert(base + pe.take(0) =~= base);
        while k < pre.len()
            invariant
                k <= pre.len(),
                pre@.len() == parts@.len(),
                views(parts@) == split_colons(ss@[i as int].qualified_name@),
                views(dir@) == parent_comps(ss@[i as int].loc.file@),
                forall|m: int| 0 <= m < pre@.len() ==> #[trigger] pre@[m]@ == join(views(parts@).take(m + 1), "::"@),
                pe == prefix_entries(ss@[i as int]),
                mod_view(r@) == base + pe.take(k as int),
            decreases pre.len() - k,
        {
            let ghost before = mod_view(r@);
            let d = copy_strings(&dir);
            r.push((owned(pre[k].as_str()), d));
            assert(pe[k as int] == (pre@[k as int]@, views(dir@)));
            assert(mod_view(r@) =~= before.push(pe[k as int]));
            assert(base + pe.take(k + 1) =~= (base + pe.take(k as int)).push(pe[k as int]));
            k += 1;
        }
        assert(pe.take(pre.len() as int) =~= pe);
        assert(ss@.take(i + 1).drop_last() =~= ss@.take(i as int));
        i += 1;
    }
    assert(ss@.take(ss.len() as int) =~= ss@);
    r
}

fn first_dir_exec(es: &Vec<(String, Vec<String>)>, key: &str) -> (r: Option<Vec<String>>)
    ensures
        match r {
            Some(d) => first_dir(mod_view(es@), key@) == Some(views(d@)),
            None => first_dir(mod_view(es@), key@) is None,
        },
{
    let ghost ev = mod_view(es@);
    let mut i: usize = 0;
    assert(ev.skip(0) =~= ev);
    while i < es.len()
        invariant
            i <= es.len(),
            ev == mod_view(es@),
            first_dir(ev, key@) == first_dir(ev.skip(i as int), key@),
        decreases es.len() - i,
    {
        assert(ev.skip(i as int)[0] == ev[i as int]);
        assert(ev[i as int].0 == es@[i as int].0@);
        if str_eq(es[i].0.as_str(), key) {
            return Some(copy_strings(&es[i].1));
        }
        assert(ev.skip(i as int).drop_first() =~= ev.skip(i + 1));
        i += 1;
    }
    None
}

// ---------------------------------------------------------------------------
// Resolving a dependency to a directory
// ---------------------------------------------------------------------------

/// `s` up to the first `c` (`str::split(c).next()`).
pub open spec fn before_char(s: Seq<char>, c: char) -> Seq<char>
    decreases s.len(),
{
    if s.len() == 0 {
        s
    } else if s[0] == c {
        seq![]
    } else {
        seq![s[0]] + before_char(s.drop_first(), c)
    }
}

/// Every trailing `::` removed (`trim_end_matches("::")`).
pub open spec fn trim_end_colons(s: Seq<char>) -> Seq<char>
    decreases s.len(),
{
    if s.len() >= 2 && s[s.len() - 2] == ':' && s[s.len() - 1] == ':' {
        trim_end_colons(s.take(s.len() - 2))
    } else {
        s
    }
}

/// An import target without a grouped list, a trailing glob or `::`, and
/// surrounding whitespace: `crate::ir::types::*` → `crate::ir::types`,
/// `crate::ir::{Symbol, Dep}` → `crate::ir`.
pub open spec fn import_base(t: Seq<char>) -> Seq<char> {
    trim(trim_end_colons(trim_end_char(before_char(t, '{'), '*')))
}

fn import_base_exec(t: &str) -> (r: String)
    ensures
        r@ == import_base(t@),
{
    let v = chars_of(t);
    let mut i: usize = 0;
    assert(v@.skip(0) =~= v@);
    assert(v@.take(0) + before_char(v@.skip(0), '{') =~= before_char(v@, '{'));
    while i < v.len()
        invariant
            i <= v.len(),
            before_char(v@, '{') == v@.take(i as int) + before_char(v@.skip(i as int), '{'),
        ensures
            i <= v.len(),
            before_char(v@, '{') =~= v@.take(i as int),
        decreases v.len() - i,
    {
        assert(v@.skip(i as int)[0] == v@[i as int]);
        if v[i] == '{' {
            assert(before_char(v@.skip(i as int), '{') =~= Seq::<char>::empty());
            assert(v@.take(i as int) + Seq::<char>::empty() =~= v@.take(i as int));
            break;
        }
        assert(v@.skip(i as int).drop_first() =~= v@.skip(i + 1));
        assert(v@.take(i + 1) + before_char(v@.skip(i + 1), '{') =~= v@.take(i as int) + (seq![v@[i as int]]
            + before_char(v@.skip(i + 1), '{')));
        i += 1;
    }
    let ghost b = v@.take(i as int);
    let mut n = i;
    assert(b.take(n as int) =~= b);
    while n > 0 && v[n - 1] == '*'
        invariant
            n <= i <= v.len(),
            b == v@.take(i as int),
            trim_end_char(b, '*') == trim_end_char(b.take(n as int), '*'),
        decreases n,
    {
        assert(b.take(n as int).drop_last() =~= b.take(n - 1));
        n -= 1;
    }
    let ghost b2 = b.take(n as int);
    assert(trim_end_char(b.take(n as int), '*') == b2);
    let mut m = n;
    assert(b2.take(m as int) =~= b2);
    while m >= 2 && v[m - 2] == ':' && v[m - 1] == ':'
        invariant
            m <= n <= i <= v.len(),
            b2 == v@.take(n as int),
            trim_end_colons(b2) == trim_end_colons(b2.take(m as int)),
        decreases m,
    {
        assert(b2.take(m as int).take(m - 2) =~= b2.take(m - 2));
        m -= 2;
    }
    let cut = crate::text::string_of(&v, 0, m);
    assert(cut@ =~= b2.take(m as int));
    crate::text::trim_str(cut.as_str())
}

/// The directory of the longest `::`-prefix of the parts that some symbol
/// declared, trying the first `len` parts, then fewer.
pub open spec fn resolve_from(es: Seq<ModEntryV>, parts: Seq<Seq<char>>, len: int) -> Option<Seq<Seq<char>>>
    decreases len,
{
    if len <= 0 {
        None
    } else {
        match first_dir(es, join(parts.take(len), "::"@)) {
            Some(d) => Some(d),
            None => resolve_from(es, parts, len - 1),
        }
    }
}

/// The directory an import target resolves to, if any.
pub open spec fn resolve_import(es: Seq<ModEntryV>, t: Seq<char>) -> Option<Seq<Seq<char>>> {
    let parts = split_colons(import_base(t));
    resolve_from(es, parts, parts.len() as int)
}

fn resolve_import_exec(es: &Vec<(String, Vec<String>)>, t: &str) -> (r: Option<Vec<String>>)
    ensures
        match r {
            Some(d) => resolve_import(mod_view(es@), t@) == Some(views(d@)),
            None => resolve_import(mod_view(es@), t@) is None,
        },
{
    let base = import_base_exec(t);
    let parts = split_colons_exec(base.as_str());
    let pre = prefixes_of(&parts);
    let ghost ev = mod_view(es@);
    let ghost pv = views(parts@);
    let mut len = pre.len();
    while len > 0
        invariant
            len <= pre@.len(),
            pre@.len() == pv.len(),
            ev == mod_view(es@),
            pv == split_colons(import_base(t@)),
            forall|m: int| 0 <= m < pre@.len() ==> #[trigger] pre@[m]@ == join(pv.take(m + 1), "::"@),
            resolve_import(ev, t@) == resolve_from(ev, pv, len as int),
        decreases len,
    {
        assert(pre@[len - 1]@ == join(pv.take(len as int), "::"@));
        match first_dir_exec(es, pre[len - 1].as_str()) {
            Some(d) => {
                return Some(d);
            },
            None => {},
        }
        len -= 1;
    }
    None
}

/// The position of the first symbol named `n`.
pub open spec fn first_named(ss: Seq<Symbol>, n: Seq<char>) -> Option<int>
    decreases ss.len(),
{
    if ss.len() == 0 {
        None
    } else if ss[0].name@ == n {
        Some(0)
    } else {
        match first_named(ss.drop_first(), n) {
            Some(j) => Some(j + 1),
            None => None,
        }
    }
}

proof fn lemma_first_named_bounds(ss: Seq<Symbol>, n: Seq<char>)
    ensures
        first_named(ss, n) matches Some(j) ==> 0 <= j < ss.len() && ss[j].name@ == n,
    decreases ss.len(),
{
    if ss.len() > 0 {
        lemma_first_named_bounds(ss.drop_first(), n);
    }
}

fn first_named_exec(ss: &Vec<Symbol>, n: &str) -> (r: Option<usize>)
    ensures
        match r {
            Some(j) => first_named(ss@, n@) == Some(j as int),
            None => first_named(ss@, n@) is None,
        },
{
    let mut i: usize = 0;
    assert(ss@.skip(0) =~= ss@);
    while i < ss.len()
        invariant
            i <= ss.len(),
            first_named(ss@, n@) == match first_named(ss@.skip(i as int), n@) {
                Some(j) => Some(j + i),
                None => None,
            },
        decreases ss.len() - i,
    {
        assert(ss@.skip(i as int)[0] == ss@[i as int]);
        if str_eq(ss[i].name.as_str(), n) {
            return Some(i);
        }
        assert(ss@.skip(i as int).drop_first() =~= ss@.skip(i + 1));
        i += 1;
    }
    None
}

/// The directory (clamped to `depth`) a dependency points into: that of
/// the module its target names, else that of the first symbol with the
/// target's name.
pub open spec fn dep_target(ss: Seq<Symbol>, es: Seq<ModEntryV>, d: Dependency, depth: Option<usize>) -> Option<
    Seq<Seq<char>>,
> {
    match resolve_import(es, d.to_name@) {
        Some(dir) => Some(limit_depth(dir, depth)),
        None => match first_named(ss, d.to_name@) {
            Some(j) => Some(dir_at_depth(ss[j].loc.file@, depth)),
            None => None,
        },
    }
}

fn dep_target_exec(ss: &Vec<Symbol>, es: &Vec<(String, Vec<String>)>, d: &Dependency, depth: Option<usize>) -> (r: Option<
    Vec<String>,
>)
    ensures
        match r {
            Some(t) => dep_target(ss@, mod_view(es@), *d, depth) == Some(views(t@)),
            None => dep_target(ss@, mod_view(es@), *d, depth) is None,
        },
{
    match resolve_import_exec(es, d.to_name.as_str()) {
        Some(dir) => Some(limit_depth_exec(dir, depth)),
        None => {
            match first_named_exec(ss, d.to_name.as_str()) {
                Some(j) => {
                    proof {
                        lemma_first_named_bounds(ss@, d.to_name@);
                    }
                    Some(limit_depth_exec(parent_comps_exec(ss[j].loc.file.as_str()), depth))
                },
                None => None,
            }
        },
    }
}

}

verus! {

// ---------------------------------------------------------------------------
// Outgoing directories
// ---------------------------------------------------------------------------

/// Does string `a` sort after `b`?
pub open spec fn str_after() -> spec_fn(Seq<char>, Seq<char>) -> bool {
    |a: Seq<char>, b: Seq<char>| lex_order(a, b) > 0
}

/// `x` added to the ordered list `s` unless it is already where it would go.
pub open spec fn set_insert(s: Seq<Seq<char>>, x: Seq<char>) -> Seq<Seq<char>> {
    let p = ins_pos(s, x, str_after());
    if p > 0 && s[p - 1] == x {
        s
    } else {
        s.insert(p, x)
    }
}

fn set_insert_exec(r: &mut Vec<String>, x: String)
    ensures
        views(final(r)@) == set_insert(views(old(r)@), x@),
{
    let ghost s0 = views(r@);
    let xc = chars_of(x.as_str());
    let mut j: usize = r.len();
    assert(s0.take(j as int) =~= s0);
    while j > 0
        invariant
            j <= r.len(),
            s0 == views(r@),
            xc@ == x@,
            ins_pos(s0, x@, str_after()) == ins_pos(s0.take(j as int), x@, str_after()),
        ensures
            j <= r.len(),
            s0 == views(r@),
            ins_pos(s0, x@, str_after()) == j as int,
        decreases j,
    {
        let after = lex_compare(&chars_of(r[j - 1].as_str()), &xc) > 0;
        proof {
            lemma_ins_pos_step(s0, j as int, x@, str_after());
            assert(s0[j - 1] == r@[j - 1]@);
        }
        if !after {
            break;
        }
        j -= 1;
    }
    if j > 0 && str_eq(r[j - 1].as_str(), x.as_str()) {
        assert(s0[j - 1] == x@);
        return;
    }
    r.insert(j, x);
    assert(views(r@) =~= s0.insert(j as int, x@));
}

/// Is file `f` one of the group's files (by components)?
pub open spec fn in_group(files: Seq<FileEntryV>, idxs: Seq<int>, f: Seq<char>) -> bool {
    exists|k: int| 0 <= k < idxs.len() && components(#[trigger] files[idxs[k]].0) == components(f)
}

fn in_group_exec(files: &Vec<(String, Vec<usize>)>, idxs: &Vec<usize>, fc: &Vec<String>, Ghost(f): Ghost<Seq<char>>) -> (r: bool)
    requires
        forall|k: int| 0 <= k < idxs@.len() ==> #[trigger] idxs@[k] < files@.len(),
        views(fc@) == components(f),
    ensures
        r == in_group(table_view(files@), ints(idxs@), f),
{
    let ghost fv = table_view(files@);
    let ghost iv = ints(idxs@);
    let mut k: usize = 0;
    while k < idxs.len()
        invariant
            k <= idxs.len(),
            fv == table_view(files@),
            iv == ints(idxs@),
            forall|m: int| 0 <= m < idxs@.len() ==> #[trigger] idxs@[m] < files@.len(),
            views(fc@) == components(f),
            forall|m: int| 0 <= m < k ==> components(#[trigger] fv[iv[m]].0) != components(f),
        decreases idxs.len() - k,
    {
        let fi = idxs[k];
        assert(idxs@[k as int] < files@.len());
        assert(fv[iv[k as int]].0 == files@[fi as int].0@);
        let c = path_components(files[fi].0.as_str());
        if comps_eq(&c, fc) {
            assert(components(fv[iv[k as int]].0) == components(f));
            return true;
        }
        k += 1;
    }
    false
}

/// The other directories (clamped to `depth`) that a group's files depend
/// on, each once, in string order.
pub open spec fn outgoing(
    files: Seq<FileEntryV>,
    idxs: Seq<int>,
    gd: Seq<Seq<char>>,
    ss: Seq<Symbol>,
    es: Seq<ModEntryV>,
    ds: Seq<Dependency>,
    depth: Option<usize>,
) -> Seq<Seq<char>>
    decreases ds.len(),
{
    if ds.len() == 0 {
        seq![]
    } else {
        let prev = outgoing(files, idxs, gd, ss, es, ds.drop_last(), depth);
        let d = ds.last();
        if in_group(files, idxs, d.loc.file@) {
            match dep_target(ss, es, d, depth) {
                Some(t) => if t != gd && dir_text(t).len() > 0 {
                    set_insert(prev, dir_text(t))
                } else {
                    prev
                },
                None => prev,
            }
        } else {
            prev
        }
    }
}

fn outgoing_exec(
    files: &Vec<(String, Vec<usize>)>,
    idxs: &Vec<usize>,
    gd: &Vec<String>,
    ss: &Vec<Symbol>,
    es: &Vec<(String, Vec<String>)>,
    ds: &Vec<Dependency>,
    depth: Option<usize>,
) -> (r: Vec<String>)
    requires
        forall|k: int| 0 <= k < idxs@.len() ==> #[trigger] idxs@[k] < files@.len(),
    ensures
        views(r@) == outgoing(table_view(files@), ints(idxs@), views(gd@), ss@, mod_view(es@), ds@, depth),
{
    let mut r: Vec<String> = Vec::new();
    let mut i: usize = 0;
    assert(ds@.take(0) =~= Seq::<Dependency>::empty());
    assert(views(r@) =~= Seq::<Seq<char>>::empty());
    while i < ds.len()
        invariant
            i <= ds.len(),
            forall|k: int| 0 <= k < idxs@.len() ==> #[trigger] idxs@[k] < files@.len(),
            views(r@) == outgoing(table_view(files@), ints(idxs@), views(gd@), ss@, mod_view(es@), ds@.take(i as int), depth),
        decreases ds.len() - i,
    {
        assert(ds@.take(i + 1).drop_last() =~= ds@.take(i as int));
        assert(ds@.take(i + 1).last() == ds@[i as int]);
        let d = &ds[i];
        let dc = path_components(d.loc.file.as_str());
        if in_group_exec(files, idxs, &dc, Ghost(d.loc.file@)) {
            match dep_target_exec(ss, es, d, depth) {
                Some(t) => {
                    if !comps_eq(&t, gd) {
                        let text = join_strings(&t, "/");
                        if chars_of(text.as_str()).len() > 0 {
                            set_insert_exec(&mut r, text);
                        }
                    }
                },
                None => {},
            }
        }
        i += 1;
    }
    assert(ds@.take(ds.len() as int) =~= ds@);
    r
}

}

verus! {

// ---------------------------------------------------------------------------
// Text output
// ---------------------------------------------------------------------------

/// A directory's heading: `./` for the root, else its path and `/`.
pub open spec fn dir_label(d: Seq<Seq<char>>) -> Seq<char> {
    if d.len() == 0 {
        "./"@
    } else {
        dir_text(d) + "/"@
    }
}

fn dir_label_exec(d: &Vec<String>) -> (r: String)
    ensures
        r@ == dir_label(views(d@)),
{
    if d.len() == 0 {
        owned("./")
    } else {
        let mut t = join_strings(d, "/");
        push_str(&mut t, "/");
        t
    }
}

/// `1 file`, `n files`.
pub open spec fn files_label(n: nat) -> Seq<char> {
    if n == 1 {
        "1 file"@
    } else {
        decimal(n) + " files"@
    }
}

fn files_label_exec(n: usize) -> (r: String)
    ensures
        r@ == files_label(n as nat),
{
    if n == 1 {
        owned("1 file")
    } else {
        let mut t = usize_to_string(n);
        push_str(&mut t, " files");
        t
    }
}

/// One kind's count: `struct×3`.
pub open spec fn count_text(c: (Seq<char>, nat)) -> Seq<char> {
    c.0 + "×"@ + decimal(c.1)
}

/// The counts separated by two spaces.
pub open spec fn counts_text(cs: Seq<(Seq<char>, nat)>) -> Seq<char> {
    join(Seq::new(cs.len(), |i: int| count_text(cs[i])), "  "@)
}

fn counts_text_exec(cs: &Vec<(&'static str, usize)>) -> (r: String)
    ensures
        r@ == counts_text(counts_view(cs@)),
{
    let ghost cv = counts_view(cs@);
    let mut parts: Vec<String> = Vec::new();
    let mut i: usize = 0;
    while i < cs.len()
        invariant
            i <= cs.len(),
            cv == counts_view(cs@),
            parts@.len() == i,
            forall|k: int| 0 <= k < i ==> #[trigger] parts@[k]@ == count_text(cv[k]),
        decreases cs.len() - i,
    {
        let mut t = owned(cs[i].0);
        push_str(&mut t, "×");
        let n = usize_to_string(cs[i].1);
        push_str(&mut t, n.as_str());
        assert(cv[i as int] == (cs@[i as int].0@, cs@[i as int].1 as nat));
        parts.push(t);
        i += 1;
    }
    assert(views(parts@) =~= Seq::new(cv.len(), |i: int| count_text(cv[i])));
    join_strings(&parts, "  ")
}

/// The outgoing arrow: `→ a, b`, or nothing.
pub open spec fn deps_text(out: Seq<Seq<char>>) -> Seq<char> {
    if out.len() == 0 {
        seq![]
    } else {
        "→ "@ + join(out, ", "@)
    }
}

fn deps_text_exec(out: &Vec<String>) -> (r: String)
    ensures
        r@ == deps_text(views(out@)),
{
    if out.len() == 0 {
        let r = String::new();
        assert(r@ =~= Seq::<char>::empty());
        r
    } else {
        let j = join_strings(out, ", ");
        crate::text::concat("→ ", j.as_str())
    }
}

/// A summary row: directory, file count, kind counts, outgoing arrow.
pub type RowV = (Seq<char>, Seq<char>, Seq<char>, Seq<char>);

pub open spec fn summary_row(
    files: Seq<FileEntryV>,
    g: GroupV,
    ss: Seq<Symbol>,
    es: Seq<ModEntryV>,
    ds: Seq<Dependency>,
    depth: Option<usize>,
) -> RowV {
    (
        dir_label(g.0),
        files_label(g.1.len()),
        counts_text(kind_counts(files, g.1, ss)),
        deps_text(outgoing(files, g.1, g.0, ss, es, ds, depth)),
    )
}

pub open spec fn row_cell(r: RowV, c: int) -> Seq<char> {
    if c == 0 {
        r.0
    } else if c == 1 {
        r.1
    } else {
        r.2
    }
}

/// The widest cell of column `c`, in bytes.
pub open spec fn col_width(rows: Seq<RowV>, c: int) -> nat
    decreases rows.len(),
{
    if rows.len() == 0 {
        0
    } else {
        let w = col_width(rows.drop_last(), c);
        let b = byte_len(row_cell(rows.last(), c)) as nat;
        if b > w {
            b
        } else {
            w
        }
    }
}

/// A summary line: the columns padded to their widths; the counts column
/// only when an arrow follows.
pub open spec fn summary_line(r: RowV, dw: nat, fw: nat, cw: nat) -> Seq<char> {
    if r.3.len() == 0 {
        pad_right(r.0, dw) + "  "@ + pad_right(r.1, fw) + "  "@ + r.2
    } else {
        pad_right(r.0, dw) + "  "@ + pad_right(r.1, fw) + "  "@ + pad_right(r.2, cw) + "  "@ + r.3
    }
}

pub open spec fn summary_lines(rows: Seq<RowV>) -> Seq<Seq<char>> {
    Seq::new(
        rows.len(),
        |i: int| summary_line(rows[i], col_width(rows, 0), col_width(rows, 1), col_width(rows, 2)),
    )
}

pub open spec fn rows_view(rows: Seq<(String, String, String, String)>) -> Seq<RowV> {
    rows.map_values(|r: (String, String, String, String)| (r.0@, r.1@, r.2@, r.3@))
}

fn col_width_exec(rows: &Vec<(String, String, String, String)>, c: usize) -> (r: usize)
    requires
        c < 3,
    ensures
        r as nat == col_width(rows_view(rows@), c as int),
{
    let ghost rv = rows_view(rows@);
    let mut w: usize = 0;
    let mut i: usize = 0;
    assert(rv.take(0) =~= Seq::<RowV>::empty());
    while i < rows.len()
        invariant
            i <= rows.len(),
            rv == rows_view(rows@),
            c < 3,
            w as nat == col_width(rv.take(i as int), c as int),
        decreases rows.len() - i,
    {
        assert(rv.take(i + 1).drop_last() =~= rv.take(i as int));
        assert(rv.take(i + 1).last() == rv[i as int]);
        let cell = if c == 0 {
            rows[i].0.as_str()
        } else if c == 1 {
            rows[i].1.as_str()
        } else {
            rows[i].2.as_str()
        };
        assert(cell@ == row_cell(rv[i as int], c as int));
        let b = crate::text::byte_len_exec(cell);
        if b > w {
            w = b;
        }
        i += 1;
    }
    assert(rv.take(rows.len() as int) =~= rv);
    w
}

fn summary_lines_exec(rows: &Vec<(String, String, String, String)>) -> (r: Vec<String>)
    ensures
        views(r@) == summary_lines(rows_view(rows@)),
{
    let ghost rv = rows_view(rows@);
    let dw = col_width_exec(rows, 0);
    let fw = col_width_exec(rows, 1);
    let cw = col_width_exec(rows, 2);
    let mut out: Vec<String> = Vec::new();
    let mut i: usize = 0;
    while i < rows.len()
        invariant
            i <= rows.len(),
            rv == rows_view(rows@),
            dw as nat == col_width(rv, 0),
            fw as nat == col_width(rv, 1),
            cw as nat == col_width(rv, 2),
            out@.len() == i,
            forall|k: int| 0 <= k < i ==> #[trigger] out@[k]@ == summary_line(rv[k], dw as nat, fw as nat, cw as nat),
        decreases rows.len() - i,
    {
        let row = &rows[i];
        assert(rv[i as int] == (row.0@, row.1@, row.2@, row.3@));
        let mut line = pad(row.0.as_str(), dw);
        push_str(&mut line, "  ");
        let f = pad(row.1.as_str(), fw);
        push_str(&mut line, f.as_str());
        push_str(&mut line, "  ");
        if chars_of(row.3.as_str()).len() == 0 {
            push_str(&mut line, row.2.as_str());
        } else {
            let c = pad(row.2.as_str(), cw);
            push_str(&mut line, c.as_str());
            push_str(&mut line, "  ");
            push_str(&mut line, row.3.as_str());
        }
        out.push(line);
        i += 1;
    }
    assert(views(out@) =~= summary_lines(rv));
    out
}

/// How a file is shown under its directory: its path below the directory
/// (all of it under the root, or when the directory is not above it).
pub open spec fn display_name(f: Seq<char>, gd: Seq<Seq<char>>) -> Seq<char> {
    if gd.len() == 0 || gd.len() > components(f).len() {
        f
    } else {
        dir_text(components(f).skip(gd.len() as int))
    }
}

/// A file's line in `--symbols` mode: indented, and followed by its
/// symbols' inline names when it has any.
pub open spec fn file_line(name: Seq<char>, syms: Seq<Seq<char>>, width: nat) -> Seq<char> {
    if syms.len() == 0 {
        "  "@ + name
    } else {
        "  "@ + pad_right(name, width) + "  "@ + join(syms, ", "@)
    }
}

pub open spec fn inline_names(list: Seq<int>, ss: Seq<Symbol>) -> Seq<Seq<char>> {
    Seq::new(list.len(), |k: int| inline_name(ss[list[k]]))
}

/// The widest display name of a group's files, in bytes.
pub open spec fn name_width(files: Seq<FileEntryV>, idxs: Seq<int>, gd: Seq<Seq<char>>) -> nat
    decreases idxs.len(),
{
    if idxs.len() == 0 {
        0
    } else {
        let w = name_width(files, idxs.drop_last(), gd);
        let b = byte_len(display_name(files[idxs.last()].0, gd)) as nat;
        if b > w {
            b
        } else {
            w
        }
    }
}

/// A group in `--symbols` mode: its heading, then a line per file.
pub open spec fn group_block(files: Seq<FileEntryV>, g: GroupV, ss: Seq<Symbol>) -> Seq<Seq<char>> {
    seq![dir_label(g.0)] + Seq::new(
        g.1.len(),
        |k: int| file_line(display_name(files[g.1[k]].0, g.0), inline_names(files[g.1[k]].1, ss), name_width(files, g.1, g.0)),
    )
}

/// The `--symbols` lines: the groups' blocks separated by blank lines.
pub open spec fn symbols_lines(files: Seq<FileEntryV>, gs: Seq<GroupV>, ss: Seq<Symbol>) -> Seq<Seq<char>>
    decreases gs.len(),
{
    if gs.len() == 0 {
        seq![]
    } else {
        let prev = symbols_lines(files, gs.drop_last(), ss);
        let sep: Seq<Seq<char>> = if gs.len() > 1 { seq![seq![]] } else { seq![] };
        prev + sep + group_block(files, gs.last(), ss)
    }
}

fn display_name_exec(f: &str, gd: &Vec<String>) -> (r: String)
    ensures
        r@ == display_name(f@, views(gd@)),
{
    let c = path_components(f);
    if gd.len() == 0 || gd.len() > c.len() {
        owned(f)
    } else {
        let ghost cv = views(c@);
        let ghost start = gd.len() as int;
        let mut rest: Vec<String> = Vec::new();
        let mut k: usize = gd.len();
        assert(views(rest@) =~= cv.subrange(start, start));
        while k < c.len()
            invariant
                gd.len() <= k <= c.len(),
                cv == views(c@),
                start == gd.len(),
                views(rest@) == cv.subrange(start, k as int),
            decreases c.len() - k,
        {
            let ghost before = views(rest@);
            rest.push(owned(c[k].as_str()));
            assert(views(rest@) =~= before.push(cv[k as int]));
            assert(cv.subrange(start, k + 1) =~= cv.subrange(start, k as int).push(cv[k as int]));
            k += 1;
        }
        assert(cv.subrange(start, c.len() as int) =~= cv.skip(start));
        join_strings(&rest, "/")
    }
}

}

verus! {

fn inline_names_exec(list: &Vec<usize>, ss: &Vec<Symbol>) -> (r: Vec<String>)
    requires
        forall|k: int| 0 <= k < list@.len() ==> #[trigger] list@[k] < ss@.len(),
    ensures
        views(r@) == inline_names(ints(list@), ss@),
{
    let mut r: Vec<String> = Vec::new();
    let mut k: usize = 0;
    while k < list.len()
        invariant
            k <= list.len(),
            forall|m: int| 0 <= m < list@.len() ==> #[trigger] list@[m] < ss@.len(),
            r@.len() == k,
            forall|m: int| 0 <= m < k ==> #[trigger] r@[m]@ == inline_name(ss@[list@[m] as int]),
        decreases list.len() - k,
    {
        assert(list@[k as int] < ss@.len());
        r.push(inline_name_of(&ss[list[k]]));
        k += 1;
    }
    assert(views(r@) =~= inline_names(ints(list@), ss@));
    r
}

fn group_block_exec(files: &Vec<(String, Vec<usize>)>, gd: &Vec<String>, idxs: &Vec<usize>, ss: &Vec<Symbol>) -> (r: Vec<String>)
    requires
        forall|k: int| 0 <= k < idxs@.len() ==> #[trigger] idxs@[k] < files@.len(),
        entries_bounded(files@, ss@.len()),
    ensures
        views(r@) == group_block(table_view(files@), (views(gd@), ints(idxs@)), ss@),
{
    let ghost fv = table_view(files@);
    let ghost iv = ints(idxs@);
    let ghost d = views(gd@);
    // Display names and their widest byte length.
    let mut names: Vec<String> = Vec::new();
    let mut w: usize = 0;
    let mut k: usize = 0;
    assert(iv.take(0) =~= Seq::<int>::empty());
    while k < idxs.len()
        invariant
            k <= idxs.len(),
            fv == table_view(files@),
            iv == ints(idxs@),
            d == views(gd@),
            forall|m: int| 0 <= m < idxs@.len() ==> #[trigger] idxs@[m] < files@.len(),
            names@.len() == k,
            forall|m: int| 0 <= m < k ==> #[trigger] names@[m]@ == display_name(fv[iv[m]].0, d),
            w as nat == name_width(fv, iv.take(k as int), d),
        decreases idxs.len() - k,
    {
        assert(idxs@[k as int] < files@.len());
        assert(iv.take(k + 1).drop_last() =~= iv.take(k as int));
        assert(iv.take(k + 1).last() == iv[k as int]);
        assert(fv[iv[k as int]].0 == files@[idxs@[k as int] as int].0@);
        let n = display_name_exec(files[idxs[k]].0.as_str(), gd);
        let b = crate::text::byte_len_exec(n.as_str());
        if b > w {
            w = b;
        }
        names.push(n);
        k += 1;
    }
    assert(iv.take(idxs.len() as int) =~= iv);
    let mut out: Vec<String> = Vec::new();
    out.push(dir_label_exec(gd));
    let ghost tail = Seq::new(
        iv.len(),
        |k: int| file_line(display_name(fv[iv[k]].0, d), inline_names(fv[iv[k]].1, ss@), name_width(fv, iv, d)),
    );
    let mut k: usize = 0;
    while k < idxs.len()
        invariant
            k <= idxs.len(),
            fv == table_view(files@),
            iv == ints(idxs@),
            d == views(gd@),
            forall|m: int| 0 <= m < idxs@.len() ==> #[trigger] idxs@[m] < files@.len(),
            entries_bounded(files@, ss@.len()),
            names@.len() == idxs@.len(),
            forall|m: int| 0 <= m < idxs@.len() ==> #[trigger] names@[m]@ == display_name(fv[iv[m]].0, d),
            w as nat == name_width(fv, iv, d),
            tail == Seq::new(
                iv.len(),
                |k: int| file_line(display_name(fv[iv[k]].0, d), inline_names(fv[iv[k]].1, ss@), name_width(fv, iv, d)),
            ),
            out@.len() == k + 1,
            out@[0]@ == dir_label(d),
            forall|m: int| 0 <= m < k ==> #[trigger] out@[m + 1]@ == tail[m],
        decreases idxs.len() - k,
    {
        let f = idxs[k];
        assert(idxs@[k as int] < files@.len());
        let list = &files[f].1;
        assert(forall|m: int| 0 <= m < list@.len() ==> #[trigger] list@[m] < ss@.len()) by {
            assert forall|m: int| 0 <= m < list@.len() implies #[trigger] list@[m] < ss@.len() by {
                assert(files@[f as int].1@[m] < ss@.len());
            }
        }
        assert(fv[iv[k as int]].1 == ints(list@));
        let syms = inline_names_exec(list, ss);
        let mut line = owned("  ");
        if syms.len() == 0 {
            push_str(&mut line, names[k].as_str());
        } else {
            let p = pad(names[k].as_str(), w);
            push_str(&mut line, p.as_str());
            push_str(&mut line, "  ");
            let j = join_strings(&syms, ", ");
            push_str(&mut line, j.as_str());
        }
        assert(line@ == tail[k as int]);
        let ghost before = out@;
        out.push(line);
        assert forall|m: int| 0 <= m < k + 1 implies #[trigger] out@[m + 1]@ == tail[m] by {
            if m < k {
                assert(out@[m + 1] == before[m + 1]);
            }
        }
        k += 1;
    }
    assert(views(out@) =~= seq![dir_label(d)] + tail) by {
        assert forall|m: int| 0 <= m < out@.len() implies #[trigger] views(out@)[m] == (seq![dir_label(d)] + tail)[m] by {
            if m > 0 {
                assert(out@[(m - 1) + 1]@ == tail[m - 1]);
            }
        }
    }
    out
}

fn symbols_lines_exec(
    files: &Vec<(String, Vec<usize>)>,
    gs: &Vec<(Vec<String>, Vec<usize>)>,
    ss: &Vec<Symbol>,
) -> (r: Vec<String>)
    requires
        forall|g: int, k: int| 0 <= g < gs@.len() && 0 <= k < gs@[g].1@.len() ==> #[trigger] gs@[g].1@[k] < files@.len(),
        entries_bounded(files@, ss@.len()),
    ensures
        views(r@) == symbols_lines(table_view(files@), groups_view(gs@), ss@),
{
    let ghost gv = groups_view(gs@);
    let mut out: Vec<String> = Vec::new();
    let mut i: usize = 0;
    assert(gv.take(0) =~= Seq::<GroupV>::empty());
    assert(views(out@) =~= Seq::<Seq<char>>::empty());
    while i < gs.len()
        invariant
            i <= gs.len(),
            gv == groups_view(gs@),
            forall|g: int, k: int| 0 <= g < gs@.len() && 0 <= k < gs@[g].1@.len() ==> #[trigger] gs@[g].1@[k] < files@.len(),
            entries_bounded(files@, ss@.len()),
            views(out@) == symbols_lines(table_view(files@), gv.take(i as int), ss@),
        decreases gs.len() - i,
    {
        assert(gv.take(i + 1).drop_last() =~= gv.take(i as int));
        assert(gv.take(i + 1).last() == gv[i as int]);
        let ghost before = views(out@);
        if i > 0 {
            out.push(String::new());
        }
        let ghost mid = views(out@);
        assert(mid =~= before + (if i > 0 { seq![Seq::<char>::empty()] } else { Seq::<Seq<char>>::empty() }));
        let g = &gs[i];
        assert(forall|k: int| 0 <= k < g.1@.len() ==> #[trigger] g.1@[k] < files@.len()) by {
            assert forall|k: int| 0 <= k < g.1@.len() implies #[trigger] g.1@[k] < files@.len() by {
                assert(gs@[i as int].1@[k] < files@.len());
            }
        }
        assert(gv[i as int] == (views(g.0@), ints(g.1@)));
        let block = group_block_exec(files, &g.0, &g.1, ss);
        crate::text::extend_strings(&mut out, block);
        i += 1;
    }
    assert(gv.take(gs.len() as int) =~= gv);
    out
}

/// The summary rows of the groups.
pub open spec fn summary_rows(
    files: Seq<FileEntryV>,
    gs: Seq<GroupV>,
    ss: Seq<Symbol>,
    es: Seq<ModEntryV>,
    ds: Seq<Dependency>,
    depth: Option<usize>,
) -> Seq<RowV> {
    Seq::new(gs.len(), |i: int| summary_row(files, gs[i], ss, es, ds, depth))
}

fn summary_rows_exec(
    files: &Vec<(String, Vec<usize>)>,
    gs: &Vec<(Vec<String>, Vec<usize>)>,
    ss: &Vec<Symbol>,
    es: &Vec<(String, Vec<String>)>,
    ds: &Vec<Dependency>,
    depth: Option<usize>,
) -> (r: Vec<(String, String, String, String)>)
    requires
        forall|g: int, k: int| 0 <= g < gs@.len() && 0 <= k < gs@[g].1@.len() ==> #[trigger] gs@[g].1@[k] < files@.len(),
        entries_bounded(files@, ss@.len()),
    ensures
        rows_view(r@) == summary_rows(table_view(files@), groups_view(gs@), ss@, mod_view(es@), ds@, depth),
{
    let ghost gv = groups_view(gs@);
    let mut rows: Vec<(String, String, String, String)> = Vec::new();
    let mut i: usize = 0;
    while i < gs.len()
        invariant
            i <= gs.len(),
            gv == groups_view(gs@),
            forall|g: int, k: int| 0 <= g < gs@.len() && 0 <= k < gs@[g].1@.len() ==> #[trigger] gs@[g].1@[k] < files@.len(),
            entries_bounded(files@, ss@.len()),
            rows@.len() == i,
            forall|m: int| 0 <= m < i ==> #[trigger] rows_view(rows@)[m] == summary_row(table_view(files@), gv[m], ss@, mod_view(es@), ds@, depth),
        decreases gs.len() - i,
    {
        let g = &gs[i];
        assert(forall|k: int| 0 <= k < g.1@.len() ==> #[trigger] g.1@[k] < files@.len()) by {
            assert forall|k: int| 0 <= k < g.1@.len() implies #[trigger] g.1@[k] < files@.len() by {
                assert(gs@[i as int].1@[k] < files@.len());
            }
        }
        assert(gv[i as int] == (views(g.0@), ints(g.1@)));
        assert(ints(g.1@).len() == g.1.len());
        let dir = dir_label_exec(&g.0);
        let fl = files_label_exec(g.1.len());
        let counts = kind_counts_exec(files, &g.1, ss);
        let ct = counts_text_exec(&counts);
        let out = outgoing_exec(files, &g.1, &g.0, ss, es, ds, depth);
        let dt = deps_text_exec(&out);
        let ghost before = rows@;
        rows.push((dir, fl, ct, dt));
        assert forall|m: int| 0 <= m < i + 1 implies #[trigger] rows_view(rows@)[m] == summary_row(table_view(files@), gv[m], ss@, mod_view(es@), ds@, depth) by {
            if m < i {
                assert(rows@[m] == before[m]);
                assert(rows_view(before)[m] == summary_row(table_view(files@), gv[m], ss@, mod_view(es@), ds@, depth));
            }
        }
        i += 1;
    }
    assert(rows_view(rows@) =~= summary_rows(table_view(files@), gv, ss@, mod_view(es@), ds@, depth));
    rows
}

}

verus! {

/// The first line: how many files and symbols the map covers, and how many
/// generated files it left out.
pub open spec fn header_text(nfiles: nat, nsyms: nat, excluded: nat) -> Seq<char> {
    decimal(nfiles) + " files · "@ + decimal(nsyms) + " symbols"@ + if excluded > 0 {
        "  ("@ + decimal(excluded) + " generated excluded — use --include-generated to show)"@
    } else {
        seq![]
    }
}

/// The number of listed symbols over the files.
pub open spec fn sum_lens(files: Seq<FileEntryV>) -> nat
    decreases files.len(),
{
    if files.len() == 0 {
        0
    } else {
        sum_lens(files.drop_last()) + files.last().1.len()
    }
}

/// The text map of the selected files: the header, then (when there are
/// files) a blank line and the directory summary or, in `--symbols` mode,
/// the files with their symbols.
pub open spec fn map_text_spec(
    files: Seq<FileEntryV>,
    ss: Seq<Symbol>,
    ds: Seq<Dependency>,
    depth: Option<usize>,
    symbols_mode: bool,
    excluded: nat,
) -> Seq<char> {
    let header = header_text(files.len(), capped(sum_lens(files) as int), excluded);
    if files.len() == 0 {
        header
    } else {
        let gs = group_dirs(files, depth);
        let body = if symbols_mode {
            symbols_lines(files, gs, ss)
        } else {
            summary_lines(summary_rows(files, gs, ss, module_entries(ss), ds, depth))
        };
        join(seq![header, seq![]] + body, "\n"@)
    }
}

pub open spec fn opt_str(o: Option<&str>) -> Option<Seq<char>> {
    match o {
        Some(p) => Some(p@),
        None => None,
    }
}

/// What `smartgrep map` prints in text format for an index.
pub open spec fn map_output_spec(
    ss: Seq<Symbol>,
    ds: Seq<Dependency>,
    in_path: Option<Seq<char>>,
    all: bool,
    depth: Option<usize>,
    include_generated: bool,
    symbols_mode: bool,
) -> Seq<char> {
    let (files, excluded) = map_selection(ss, in_path, all, include_generated);
    map_text_spec(files, ss, ds, depth, symbols_mode, excluded)
}

fn header_exec(nfiles: usize, nsyms: usize, excluded: usize) -> (r: String)
    ensures
        r@ == header_text(nfiles as nat, nsyms as nat, excluded as nat),
{
    let mut h = usize_to_string(nfiles);
    push_str(&mut h, " files · ");
    let n = usize_to_string(nsyms);
    push_str(&mut h, n.as_str());
    push_str(&mut h, " symbols");
    if excluded > 0 {
        push_str(&mut h, "  (");
        let e = usize_to_string(excluded);
        push_str(&mut h, e.as_str());
        push_str(&mut h, " generated excluded — use --include-generated to show)");
    } else {
        assert(h@ + Seq::<char>::empty() =~= h@);
    }
    h
}

fn total_symbols(files: &Vec<(String, Vec<usize>)>) -> (r: usize)
    ensures
        r as nat == capped(sum_lens(table_view(files@)) as int),
{
    let ghost fv = table_view(files@);
    let mut t: usize = 0;
    let mut i: usize = 0;
    assert(fv.take(0) =~= Seq::<FileEntryV>::empty());
    while i < files.len()
        invariant
            i <= files.len(),
            fv == table_view(files@),
            t as nat == capped(sum_lens(fv.take(i as int)) as int),
        decreases files.len() - i,
    {
        assert(fv.take(i + 1).drop_last() =~= fv.take(i as int));
        assert(fv.take(i + 1).last().1.len() == files@[i as int].1@.len());
        t = t.saturating_add(files[i].1.len());
        i += 1;
    }
    assert(fv.take(files.len() as int) =~= fv);
    t
}

fn map_text_exec(
    files: &Vec<(String, Vec<usize>)>,
    index: &Index,
    depth: Option<usize>,
    symbols_mode: bool,
    excluded: usize,
) -> (r: String)
    requires
        entries_bounded(files@, index.symbols@.len()),
    ensures
        r@ == map_text_spec(table_view(files@), index.symbols@, index.deps@, depth, symbols_mode, excluded as nat),
{
    let ghost fv = table_view(files@);
    let header = header_exec(files.len(), total_symbols(files), excluded);
    if files.len() == 0 {
        return header;
    }
    let gs = group_dirs_exec(files, depth);
    let body = if symbols_mode {
        symbols_lines_exec(files, &gs, &index.symbols)
    } else {
        let es = module_entries_exec(&index.symbols);
        let rows = summary_rows_exec(files, &gs, &index.symbols, &es, &index.deps, depth);
        summary_lines_exec(&rows)
    };
    let mut lines: Vec<String> = Vec::new();
    lines.push(header);
    lines.push(String::new());
    let ghost head = views(lines@);
    assert(head =~= seq![views(lines@)[0], Seq::<char>::empty()]);
    crate::text::extend_strings(&mut lines, body);
    join_strings(&lines, "\n")
}

/// What `smartgrep map` prints in text format: the files that define
/// symbols (only those whose path contains `in_path`, when given; generated
/// files left out unless `include_generated`), grouped by directory down to
/// `depth`, with kind counts and outgoing directories per directory, or with
/// each file's symbols in `--symbols` mode (see [`map_output_spec`]).
pub fn map_output(
    index: &Index,
    in_path: Option<&str>,
    all: bool,
    depth: Option<usize>,
    include_generated: bool,
    symbols_mode: bool,
) -> (r: String)
    ensures
        r@ == map_output_spec(index.symbols@, index.deps@, opt_str(in_path), all, depth, include_generated, symbols_mode),
{
    let (files, excluded) = map_files(index, in_path, all, include_generated);
    map_text_exec(&files, index, depth, symbols_mode, excluded)
}

// ---------------------------------------------------------------------------
// Structured output (for JSON)
// ---------------------------------------------------------------------------

/// A kind and how many of a directory's symbols have it.
pub struct MapKindCount {
    pub kind: String,
    pub count: usize,
}

/// A symbol in a file's list: its name and native kind.
pub struct MapSymbol {
    pub name: String,
    pub kind: String,
}

/// A file of a directory, with its listed symbols.
pub struct MapFile {
    pub file: String,
    pub symbols: Vec<MapSymbol>,
}

/// A directory of the map: its path, file count, symbol counts by kind,
/// the directories it depends on, and its files.
pub struct MapDir {
    pub dir: String,
    pub files: usize,
    pub symbols: Vec<MapKindCount>,
    pub outgoing: Vec<String>,
    pub file_list: Vec<MapFile>,
}

pub type MapFileV = (Seq<char>, Seq<(Seq<char>, Seq<char>)>);

pub type MapDirV = (Seq<char>, nat, Seq<(Seq<char>, nat)>, Seq<Seq<char>>, Seq<MapFileV>);

pub open spec fn map_file_view(f: MapFile) -> MapFileV {
    (f.file@, f.symbols@.map_values(|s: MapSymbol| (s.name@, s.kind@)))
}

pub open spec fn map_dir_view(d: MapDir) -> MapDirV {
    (
        d.dir@,
        d.files as nat,
        d.symbols@.map_values(|c: MapKindCount| (c.kind@, c.count as nat)),
        views(d.outgoing@),
        d.file_list@.map_values(|f: MapFile| map_file_view(f)),
    )
}

/// A file's entry: its path and its symbols' names and native kinds.
pub open spec fn map_file_spec(e: FileEntryV, ss: Seq<Symbol>) -> MapFileV {
    (e.0, Seq::new(e.1.len(), |m: int| (ss[e.1[m]].name@, ss[e.1[m]].kind@)))
}

/// A directory's entry.
pub open spec fn map_dir_spec(
    files: Seq<FileEntryV>,
    g: GroupV,
    ss: Seq<Symbol>,
    es: Seq<ModEntryV>,
    ds: Seq<Dependency>,
    depth: Option<usize>,
) -> MapDirV {
    (
        dir_text(g.0),
        g.1.len(),
        kind_counts(files, g.1, ss),
        outgoing(files, g.1, g.0, ss, es, ds, depth),
        Seq::new(g.1.len(), |k: int| map_file_spec(files[g.1[k]], ss)),
    )
}

/// What `smartgrep map --format json` reports: an entry per directory.
pub open spec fn map_dirs_spec(
    ss: Seq<Symbol>,
    ds: Seq<Dependency>,
    in_path: Option<Seq<char>>,
    all: bool,
    depth: Option<usize>,
    include_generated: bool,
) -> Seq<MapDirV> {
    let files = map_selection(ss, in_path, all, include_generated).0;
    let gs = group_dirs(files, depth);
    Seq::new(gs.len(), |i: int| map_dir_spec(files, gs[i], ss, module_entries(ss), ds, depth))
}

fn map_file_exec(e: &(String, Vec<usize>), ss: &Vec<Symbol>) -> (r: MapFile)
    requires
        forall|k: int| 0 <= k < e.1@.len() ==> #[trigger] e.1@[k] < ss@.len(),
    ensures
        map_file_view(r) == map_file_spec((e.0@, ints(e.1@)), ss@),
{
    let mut syms: Vec<MapSymbol> = Vec::new();
    let mut m: usize = 0;
    while m < e.1.len()
        invariant
            m <= e.1.len(),
            forall|k: int| 0 <= k < e.1@.len() ==> #[trigger] e.1@[k] < ss@.len(),
            syms@.len() == m,
            forall|k: int| 0 <= k < m ==> (#[trigger] syms@[k]).name@ == ss@[e.1@[k] as int].name@ && syms@[k].kind@
                == ss@[e.1@[k] as int].kind@,
        decreases e.1.len() - m,
    {
        let j = e.1[m];
        assert(e.1@[m as int] < ss@.len());
        syms.push(MapSymbol { name: owned(ss[j].name.as_str()), kind: owned(ss[j].kind.as_str()) });
        m += 1;
    }
    let r = MapFile { file: owned(e.0.as_str()), symbols: syms };
    assert(map_file_view(r).1 =~= map_file_spec((e.0@, ints(e.1@)), ss@).1);
    r
}

fn map_dir_exec(
    files: &Vec<(String, Vec<usize>)>,
    gd: &Vec<String>,
    idxs: &Vec<usize>,
    ss: &Vec<Symbol>,
    es: &Vec<(String, Vec<String>)>,
    ds: &Vec<Dependency>,
    depth: Option<usize>,
) -> (r: MapDir)
    requires
        forall|k: int| 0 <= k < idxs@.len() ==> #[trigger] idxs@[k] < files@.len(),
        entries_bounded(files@, ss@.len()),
    ensures
        map_dir_view(r) == map_dir_spec(table_view(files@), (views(gd@), ints(idxs@)), ss@, mod_view(es@), ds@, depth),
{
    let ghost fv = table_view(files@);
    let counts = kind_counts_exec(files, idxs, ss);
    let mut symbols: Vec<MapKindCount> = Vec::new();
    let mut i: usize = 0;
    while i < counts.len()
        invariant
            i <= counts.len(),
            symbols@.len() == i,
            forall|k: int| 0 <= k < i ==> (#[trigger] symbols@[k]).kind@ == counts@[k].0@ && symbols@[k].count == counts@[k].1,
        decreases counts.len() - i,
    {
        symbols.push(MapKindCount { kind: owned(counts[i].0), count: counts[i].1 });
        i += 1;
    }
    let outgoing = outgoing_exec(files, idxs, gd, ss, es, ds, depth);
    let mut file_list: Vec<MapFile> = Vec::new();
    let mut k: usize = 0;
    while k < idxs.len()
        invariant
            k <= idxs.len(),
            fv == table_view(files@),
            forall|m: int| 0 <= m < idxs@.len() ==> #[trigger] idxs@[m] < files@.len(),
            entries_bounded(files@, ss@.len()),
            file_list@.len() == k,
            forall|m: int| 0 <= m < k ==> map_file_view(#[trigger] file_list@[m]) == map_file_spec(fv[idxs@[m] as int], ss@),
        decreases idxs.len() - k,
    {
        let f = idxs[k];
        assert(idxs@[k as int] < files@.len());
        let e = &files[f];
        assert(forall|m: int| 0 <= m < e.1@.len() ==> #[trigger] e.1@[m] < ss@.len()) by {
            assert forall|m: int| 0 <= m < e.1@.len() implies #[trigger] e.1@[m] < ss@.len() by {
                assert(files@[f as int].1@[m] < ss@.len());
            }
        }
        assert(fv[f as int] == (e.0@, ints(e.1@)));
        file_list.push(map_file_exec(e, ss));
        k += 1;
    }
    let r = MapDir { dir: join_strings(gd, "/"), files: idxs.len(), symbols, outgoing, file_list };
    assert(map_dir_view(r).2 =~= counts_view(counts@));
    assert(map_dir_view(r).4 =~= Seq::new(ints(idxs@).len(), |k: int| map_file_spec(fv[ints(idxs@)[k]], ss@)));
    r
}

/// What `smartgrep map --format json` reports, before serialising: an
/// entry per directory (see [`map_dirs_spec`]).
pub fn map_dirs(
    index: &Index,
    in_path: Option<&str>,
    all: bool,
    depth: Option<usize>,
    include_generated: bool,
) -> (r: Vec<MapDir>)
    ensures
        r@.map_values(|d: MapDir| map_dir_view(d)) == map_dirs_spec(
            index.symbols@,
            index.deps@,
            opt_str(in_path),
            all,
            depth,
            include_generated,
        ),
{
    let (files, _excluded) = map_files(index, in_path, all, include_generated);
    let ghost fv = table_view(files@);
    let gs = group_dirs_exec(&files, depth);
    let ghost gv = groups_view(gs@);
    let es = module_entries_exec(&index.symbols);
    let mut out: Vec<MapDir> = Vec::new();
    let mut i: usize = 0;
    while i < gs.len()
        invariant
            i <= gs.len(),
            fv == table_view(files@),
            gv == groups_view(gs@),
            forall|g: int, k: int| 0 <= g < gs@.len() && 0 <= k < gs@[g].1@.len() ==> #[trigger] gs@[g].1@[k] < files@.len(),
            entries_bounded(files@, index.symbols@.len()),
            mod_view(es@) == module_entries(index.symbols@),
            out@.len() == i,
            forall|m: int| 0 <= m < i ==> map_dir_view(#[trigger] out@[m]) == map_dir_spec(
                fv,
                gv[m],
                index.symbols@,
                module_entries(index.symbols@),
                index.deps@,
                depth,
            ),
        decreases gs.len() - i,
    {
        let g = &gs[i];
        assert(forall|k: int| 0 <= k < g.1@.len() ==> #[trigger] g.1@[k] < files@.len()) by {
            assert forall|k: int| 0 <= k < g.1@.len() implies #[trigger] g.1@[k] < files@.len() by {
                assert(gs@[i as int].1@[k] < files@.len());
            }
        }
        assert(gv[i as int] == (views(g.0@), ints(g.1@)));
        out.push(map_dir_exec(&files, &g.0, &g.1, &index.symbols, &es, &index.deps, depth));
        i += 1;
    }
    assert(out@.map_values(|d: MapDir| map_dir_view(d)) =~= map_dirs_spec(
        index.symbols@,
        index.deps@,
        opt_str(in_path),
        all,
        depth,
        include_generated,
    ));
    out
}

}

verus! {

// ---------------------------------------------------------------------------
// Order of the map's lists
// ---------------------------------------------------------------------------

/// No element must come after the one that follows it.
pub open spec fn ordered_by<T>(s: Seq<T>, after: spec_fn(T, T) -> bool) -> bool {
    forall|i: int| 0 <= i < s.len() - 1 ==> !after(#[trigger] s[i], s[i + 1])
}

/// Where `x` goes: after an element it must not precede, before the run of
/// elements that must come after it.
proof fn lemma_ins_pos_props<T>(s: Seq<T>, x: T, after: spec_fn(T, T) -> bool)
    ensures
        0 <= ins_pos(s, x, after) <= s.len(),
        ins_pos(s, x, after) > 0 ==> !after(s[ins_pos(s, x, after) - 1], x),
        forall|j: int| ins_pos(s, x, after) <= j < s.len() ==> after(#[trigger] s[j], x),
    decreases s.len(),
{
    if s.len() > 0 && after(s.last(), x) {
        let d = s.drop_last();
        lemma_ins_pos_props(d, x, after);
        assert forall|j: int| ins_pos(s, x, after) <= j < s.len() implies after(#[trigger] s[j], x) by {
            if j < d.len() {
                assert(s[j] == d[j]);
            }
        }
    }
}

/// Inserting at the insertion point keeps an ordered list ordered, when
/// the order never asks two elements to come after each other.
proof fn lemma_insert_ordered<T>(t: Seq<T>, x: T, after: spec_fn(T, T) -> bool)
    requires
        ordered_by(t, after),
        forall|a: T, b: T| #[trigger] after(a, b) ==> !after(b, a),
    ensures
        ordered_by(t.insert(ins_pos(t, x, after), x), after),
{
    lemma_ins_pos_props(t, x, after);
    let p = ins_pos(t, x, after);
    let u = t.insert(p, x);
    assert forall|i: int| 0 <= i < u.len() - 1 implies !after(#[trigger] u[i], u[i + 1]) by {
        if i + 1 < p {
            assert(u[i] == t[i] && u[i + 1] == t[i + 1]);
        } else if i + 1 == p {
            assert(u[i] == t[p - 1] && u[i + 1] == x);
        } else if i == p {
            assert(u[i] == x && u[i + 1] == t[p]);
            assert(after(t[p], x));
        } else {
            assert(u[i] == t[i - 1] && u[i + 1] == t[i]);
            assert(!after(t[i - 1], t[i - 1 + 1]));
        }
    }
}

/// Sorting by insertion orders the list and keeps its elements.
pub proof fn lemma_insertion_sorted_orders<T>(s: Seq<T>, after: spec_fn(T, T) -> bool)
    requires
        forall|a: T, b: T| #[trigger] after(a, b) ==> !after(b, a),
    ensures
        ordered_by(insertion_sorted(s, after), after),
        insertion_sorted(s, after).to_multiset() == s.to_multiset(),
    decreases s.len(),
{
    broadcast use vstd::seq_lib::group_to_multiset_ensures;

    if s.len() == 0 {
        assert(insertion_sorted(s, after) =~= s);
    } else {
        let d = s.drop_last();
        lemma_insertion_sorted_orders(d, after);
        let t = insertion_sorted(d, after);
        lemma_insert_ordered(t, s.last(), after);
        lemma_ins_pos_bounds(t, s.last(), after);
        vstd::seq_lib::to_multiset_insert(t, ins_pos(t, s.last(), after), s.last());
        assert(s =~= d.push(s.last()));
    }
}

proof fn lemma_comps_antisymmetric(a: Seq<Seq<char>>, b: Seq<Seq<char>>)
    ensures
        comps_order(a, b) == -comps_order(b, a),
    decreases a.len(),
{
    if a.len() > 0 && b.len() > 0 {
        crate::query::engine::lemma_lex_antisymmetric(a[0], b[0]);
        lemma_comps_antisymmetric(a.drop_first(), b.drop_first());
    }
}

/// The map lists its files in path order (component by component), and
/// each file's symbols with types and constants first, then by name.
pub proof fn lemma_map_lists_in_order(ss: Seq<Symbol>, in_path: Option<Seq<char>>, all: bool, include_generated: bool)
    ensures
        ordered_by(map_selection(ss, in_path, all, include_generated).0, file_after()),
        forall|f: Seq<char>| #[trigger] ordered_by(file_symbols(ss, f, all), sym_after(ss)),
{
    assert forall|a: FileEntryV, b: FileEntryV| #[trigger] file_after()(a, b) implies !file_after()(b, a) by {
        lemma_comps_antisymmetric(components(a.0), components(b.0));
    }
    assert forall|a: int, b: int| #[trigger] sym_after(ss)(a, b) implies !sym_after(ss)(b, a) by {
        crate::query::engine::lemma_lex_antisymmetric(ss[a].name@, ss[b].name@);
    }
    let entries = distinct_files(ss).map_values(file_entry(ss, all));
    let inp = match in_path {
        Some(p) => entries.filter(entry_in_path(p)),
        None => entries,
    };
    let kept = if include_generated {
        inp
    } else {
        inp.filter(entry_not_generated())
    };
    lemma_insertion_sorted_orders(kept, file_after());
    assert forall|f: Seq<char>| #[trigger] ordered_by(file_symbols(ss, f, all), sym_after(ss)) by {
        lemma_insertion_sorted_orders(indices_where(ss.len(), shown_in(ss, f, all)), sym_after(ss));
    }
}

} // verus!
