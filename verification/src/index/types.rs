//! The queryable index: symbols and dependencies, with lookups by name, file,
//! qualified name, kind and reference target.

use vstd::prelude::*;

use crate::ir::names::{
    dep_matches, dep_matches_spec, dep_qualifier_key_spec, dep_target_key, dep_target_key_spec,
    path_segments_spec, strip_generics, strip_generics_spec, path_segments,
};
use crate::ir::types::{DepKind, Dependency, Symbol};
use crate::lang::{lang_for_path, language_for_path, languages, registry, LangSpec};
use crate::text::{chars_of, str_eq, trim, trim_str};

verus! {

/// Bump when the index schema or the set of indexed languages changes, so
/// existing on-disk indexes are rebuilt.
pub const INDEX_VERSION: u32 = 6;

/// The queryable index: the symbols and dependencies of a project, with the
/// lookup tables that `build` derives from them. Each table lists a key once,
/// in the order keys first occur, with what is filed under it.
#[derive(Debug, Clone)]
pub struct Index {
    pub version: u32,
    pub symbols: Vec<Symbol>,
    pub deps: Vec<Dependency>,
    /// name → indices of the symbols with that short name, ascending
    pub name_lookup: Vec<(String, Vec<usize>)>,
    /// file → indices of the symbols defined in it, ascending
    pub file_lookup: Vec<(String, Vec<usize>)>,
    /// qualified name → index of the last symbol with it
    pub qualified_lookup: Vec<(String, usize)>,
    /// reference key → indices of the dependencies filed under it, ascending
    /// (see [`in_reverse_bucket`])
    pub reverse_deps: Vec<(String, Vec<usize>)>,
}

/// Indices as integers.
pub open spec fn ints(v: Seq<usize>) -> Seq<int> {
    v.map_values(|u: usize| u as int)
}

/// A table of index lists as keys and integer indices.
pub open spec fn table_view(t: Seq<(String, Vec<usize>)>) -> Seq<(Seq<char>, Seq<int>)> {
    t.map_values(|e: (String, Vec<usize>)| (e.0@, ints(e.1@)))
}

/// A table of single indices as keys and integer indices.
pub open spec fn single_table_view(t: Seq<(String, usize)>) -> Seq<(Seq<char>, int)> {
    t.map_values(|e: (String, usize)| (e.0@, e.1 as int))
}

/// No key occurs twice.
pub open spec fn keys_distinct<V>(t: Seq<(Seq<char>, V)>) -> bool {
    forall|i: int, j: int| 0 <= i < j < t.len() ==> #[trigger] t[i].0 != #[trigger] t[j].0
}

/// What the table files under `k`, if it lists `k`.
pub open spec fn table_get<V>(t: Seq<(Seq<char>, V)>, k: Seq<char>) -> Option<V>
    decreases t.len(),
{
    if t.len() == 0 {
        None
    } else if t.last().0 == k {
        Some(t.last().1)
    } else {
        table_get(t.drop_last(), k)
    }
}

/// The indices below `n` that `hit` holds for, ascending.
pub open spec fn indices_where(n: nat, hit: spec_fn(int) -> bool) -> Seq<int>
    decreases n,
{
    if n == 0 {
        seq![]
    } else if hit(n - 1) {
        indices_where((n - 1) as nat, hit).push(n - 1)
    } else {
        indices_where((n - 1) as nat, hit)
    }
}

/// The largest index below `n` that `hit` holds for.
pub open spec fn last_where(n: nat, hit: spec_fn(int) -> bool) -> Option<int>
    decreases n,
{
    if n == 0 {
        None
    } else if hit(n - 1) {
        Some(n - 1)
    } else {
        last_where((n - 1) as nat, hit)
    }
}

/// A bucket as a table gives it: absent when empty.
pub open spec fn as_bucket(b: Seq<int>) -> Option<Seq<int>> {
    if b.len() == 0 {
        None
    } else {
        Some(b)
    }
}

/// Which symbols have the short name `k`.
pub open spec fn name_hits(ss: Seq<Symbol>, k: Seq<char>) -> spec_fn(int) -> bool {
    |j: int| ss[j].name@ == k
}

/// Which symbols are defined in file `k`.
pub open spec fn file_hits(ss: Seq<Symbol>, k: Seq<char>) -> spec_fn(int) -> bool {
    |j: int| ss[j].loc.file@ == k
}

/// Which symbols have the qualified name `k`.
pub open spec fn qualified_hits(ss: Seq<Symbol>, k: Seq<char>) -> spec_fn(int) -> bool {
    |j: int| ss[j].qualified_name@ == k
}

/// Which dependencies are in the reverse bucket of `k`.
pub open spec fn reverse_hits(ds: Seq<Dependency>, k: Seq<char>) -> spec_fn(int) -> bool {
    |j: int| in_reverse_bucket(ds[j], k)
}

/// The lookup tables hold exactly what `build` files in them: by name and by
/// file the ascending indices of the matching symbols, by qualified name the
/// last matching symbol, and by reference key the ascending indices of the
/// dependencies in that key's reverse bucket.
pub open spec fn lookups_consistent(ix: Index) -> bool {
    let ss = ix.symbols@;
    let ds = ix.deps@;
    &&& keys_distinct(table_view(ix.name_lookup@))
    &&& keys_distinct(table_view(ix.file_lookup@))
    &&& keys_distinct(single_table_view(ix.qualified_lookup@))
    &&& keys_distinct(table_view(ix.reverse_deps@))
    &&& forall|k: Seq<char>| #[trigger] table_get(table_view(ix.name_lookup@), k)
        == as_bucket(indices_where(ss.len(), name_hits(ss, k)))
    &&& forall|k: Seq<char>| #[trigger] table_get(table_view(ix.file_lookup@), k)
        == as_bucket(indices_where(ss.len(), file_hits(ss, k)))
    &&& forall|k: Seq<char>| #[trigger] table_get(single_table_view(ix.qualified_lookup@), k)
        == last_where(ss.len(), qualified_hits(ss, k))
    &&& forall|k: Seq<char>| #[trigger] table_get(table_view(ix.reverse_deps@), k)
        == as_bucket(indices_where(ds.len(), reverse_hits(ds, k)))
}

pub open spec fn syms(v: Seq<&Symbol>) -> Seq<Symbol> {
    v.map_values(|s: &Symbol| *s)
}

pub open spec fn deps_seq(v: Seq<&Dependency>) -> Seq<Dependency> {
    v.map_values(|d: &Dependency| *d)
}

/// Is dependency `d` listed under key `k` in the reverse table? Under its own
/// non-empty target key, and (for calls) under its owner's key as well.
pub open spec fn in_reverse_bucket(d: Dependency, k: Seq<char>) -> bool {
    let dk = dep_target_key_spec(d.to_name@);
    dk.len() > 0 && (dk == k || (d.kind == DepKind::Call && dep_qualifier_key_spec(d.to_name@) == Some(k)))
}

/// Does a query name have more than one path segment?
pub open spec fn is_qualified_query(name: Seq<char>) -> bool {
    path_segments_spec(strip_generics_spec(trim(name))).len() > 1
}

/// The dependencies `refs_to(name)` returns: those in the reverse bucket of the
/// name's key; for a qualified name, only those whose target path ends with
/// the name's segments.
pub open spec fn refs_pred(name: Seq<char>) -> spec_fn(Dependency) -> bool {
    |d: Dependency| in_reverse_bucket(d, dep_target_key_spec(name)) && (!is_qualified_query(name)
        || dep_matches_spec(d.to_name@, name))
}

pub proof fn lemma_filter_step<A>(s: Seq<A>, i: int, p: spec_fn(A) -> bool)
    requires
        0 <= i < s.len(),
    ensures
        s.take(i + 1).filter(p) == if p(s[i]) { s.take(i).filter(p).push(s[i]) } else { s.take(i).filter(p) },
{
    assert(s.take(i + 1) =~= s.take(i).push(s[i]));
    s.take(i).lemma_filter_push(s[i], p);
}

/// Does a symbol have the short name `n`?
pub open spec fn named(n: Seq<char>) -> spec_fn(Symbol) -> bool {
    |s: Symbol| s.name@ == n
}

/// Is a symbol defined in file `f`?
pub open spec fn defined_in(f: Seq<char>) -> spec_fn(Symbol) -> bool {
    |s: Symbol| s.loc.file@ == f
}

/// The symbols with the given short name, in order.
pub open spec fn symbols_named(ss: Seq<Symbol>, n: Seq<char>) -> Seq<Symbol> {
    ss.filter(named(n))
}

/// The symbols defined in the given file, in order.
pub open spec fn symbols_in_file(ss: Seq<Symbol>, f: Seq<char>) -> Seq<Symbol> {
    ss.filter(defined_in(f))
}

/// The symbols of the given kind, in order.
pub open spec fn symbols_of_kind(ss: Seq<Symbol>, k: Seq<char>) -> Seq<Symbol> {
    ss.filter(|s: Symbol| s.kind@ == k)
}

/// The symbols whose kind is among the given ones, in order.
pub open spec fn symbols_of_kinds(ss: Seq<Symbol>, ks: Seq<Seq<char>>) -> Seq<Symbol> {
    ss.filter(|s: Symbol| ks.contains(s.kind@))
}

/// The dependencies going out of the given qualified name, in order.
pub open spec fn deps_from(ds: Seq<Dependency>, qn: Seq<char>) -> Seq<Dependency> {
    ds.filter(|d: Dependency| d.from_qualified@ == qn)
}

/// Looking symbols up by one kind gives what looking them up by the list of
/// just that kind gives (`by_kind(k)` and `by_kinds(&[k])` agree).
pub proof fn lemma_by_kind_is_by_kinds(ss: Seq<Symbol>, k: Seq<char>)
    ensures
        symbols_of_kinds(ss, seq![k]) == symbols_of_kind(ss, k),
    decreases ss.len(),
{
    reveal(Seq::filter);
    if ss.len() > 0 {
        lemma_by_kind_is_by_kinds(ss.drop_last(), k);
        let x = ss.last();
        if x.kind@ == k {
            assert(seq![k][0] == k);
        }
        assert(seq![k].contains(x.kind@) == (x.kind@ == k));
    }
}

impl Index {
    /// Look up symbols by short name.
    pub fn by_name(&self, name: &str) -> (r: Vec<&Symbol>)
        ensures
            syms(r@) == symbols_named(self.symbols@, name@),
    {
        let ghost p = named(name@);
        let mut r: Vec<&Symbol> = Vec::new();
        let mut i: usize = 0;
        while i < self.symbols.len()
            invariant
                i <= self.symbols.len(),
                p == named(name@),
                syms(r@) == self.symbols@.take(i as int).filter(p),
            decreases self.symbols.len() - i,
        {
            proof {
                lemma_filter_step(self.symbols@, i as int, p);
            }
            let ghost before = syms(r@);
            if str_eq(self.symbols[i].name.as_str(), name) {
                r.push(&self.symbols[i]);
                assert(syms(r@) =~= before.push(self.symbols@[i as int]));
            }
            i += 1;
        }
        assert(self.symbols@.take(self.symbols.len() as int) =~= self.symbols@);
        r
    }

    /// Look up symbols defined in a given file.
    pub fn by_file(&self, file: &str) -> (r: Vec<&Symbol>)
        ensures
            syms(r@) == symbols_in_file(self.symbols@, file@),
    {
        let ghost p = defined_in(file@);
        let mut r: Vec<&Symbol> = Vec::new();
        let mut i: usize = 0;
        while i < self.symbols.len()
            invariant
                i <= self.symbols.len(),
                p == defined_in(file@),
                syms(r@) == self.symbols@.take(i as int).filter(p),
            decreases self.symbols.len() - i,
        {
            proof {
                lemma_filter_step(self.symbols@, i as int, p);
            }
            let ghost before = syms(r@);
            if str_eq(self.symbols[i].loc.file.as_str(), file) {
                r.push(&self.symbols[i]);
                assert(syms(r@) =~= before.push(self.symbols@[i as int]));
            }
            i += 1;
        }
        assert(self.symbols@.take(self.symbols.len() as int) =~= self.symbols@);
        r
    }

    /// Look up a symbol by its fully qualified name (the last one, when
    /// several share it, e.g. multiple impl blocks).
    pub fn by_qualified(&self, qn: &str) -> (r: Option<&Symbol>)
        ensures
            r matches Some(s) ==> last_with_qualified(self.symbols@, qn@) == Some(*s),
            r is None ==> last_with_qualified(self.symbols@, qn@) is None,
    {
        let mut k = self.symbols.len();
        assert(self.symbols@.take(k as int) =~= self.symbols@);
        while k > 0
            invariant
                k <= self.symbols.len(),
                last_with_qualified(self.symbols@, qn@) == last_with_qualified(
                    self.symbols@.take(k as int),
                    qn@,
                ),
            decreases k,
        {
            assert(self.symbols@.take(k as int).last() == self.symbols@[k - 1]);
            if str_eq(self.symbols[k - 1].qualified_name.as_str(), qn) {
                return Some(&self.symbols[k - 1]);
            }
            assert(self.symbols@.take(k as int).drop_last() =~= self.symbols@.take(k - 1));
            k -= 1;
        }
        None
    }

    /// Look up all symbols of a given (language-native) kind.
    pub fn by_kind(&self, kind: &str) -> (r: Vec<&Symbol>)
        ensures
            syms(r@) == symbols_of_kind(self.symbols@, kind@),
    {
        let ghost p = |s: Symbol| s.kind@ == kind@;
        let mut r: Vec<&Symbol> = Vec::new();
        let mut i: usize = 0;
        while i < self.symbols.len()
            invariant
                i <= self.symbols.len(),
                p == (|s: Symbol| s.kind@ == kind@),
                syms(r@) == self.symbols@.take(i as int).filter(p),
            decreases self.symbols.len() - i,
        {
            proof {
                lemma_filter_step(self.symbols@, i as int, p);
            }
            let ghost before = syms(r@);
            if str_eq(self.symbols[i].kind.as_str(), kind) {
                r.push(&self.symbols[i]);
                assert(syms(r@) =~= before.push(self.symbols@[i as int]));
            }
            i += 1;
        }
        assert(self.symbols@.take(self.symbols.len() as int) =~= self.symbols@);
        r
    }

    /// All the symbols, in order.
    pub fn all_symbols(&self) -> (r: Vec<&Symbol>)
        ensures
            syms(r@) == self.symbols@,
    {
        let mut out: Vec<&Symbol> = Vec::new();
        let mut i: usize = 0;
        while i < self.symbols.len()
            invariant
                i <= self.symbols.len(),
                syms(out@) == self.symbols@.take(i as int),
            decreases self.symbols.len() - i,
        {
            let ghost before = syms(out@);
            out.push(&self.symbols[i]);
            assert(syms(out@) =~= before.push(self.symbols@[i as int]));
            assert(self.symbols@.take(i + 1) =~= self.symbols@.take(i as int).push(self.symbols@[i as int]));
            i += 1;
        }
        assert(self.symbols@.take(self.symbols.len() as int) =~= self.symbols@);
        out
    }

    /// Look up symbols matching any of the given kinds.
    pub fn by_kinds(&self, kinds: &Vec<&str>) -> (r: Vec<&Symbol>)
        ensures
            syms(r@) == symbols_of_kinds(self.symbols@, kind_strs(kinds@)),
    {
        let ghost p = |s: Symbol| kind_strs(kinds@).contains(s.kind@);
        let mut r: Vec<&Symbol> = Vec::new();
        let mut i: usize = 0;
        while i < self.symbols.len()
            invariant
                i <= self.symbols.len(),
                p == (|s: Symbol| kind_strs(kinds@).contains(s.kind@)),
                syms(r@) == self.symbols@.take(i as int).filter(p),
            decreases self.symbols.len() - i,
        {
            proof {
                lemma_filter_step(self.symbols@, i as int, p);
            }
            let ghost before = syms(r@);
            if kind_in(kinds, self.symbols[i].kind.as_str()) {
                r.push(&self.symbols[i]);
                assert(syms(r@) =~= before.push(self.symbols@[i as int]));
            }
            i += 1;
        }
        assert(self.symbols@.take(self.symbols.len() as int) =~= self.symbols@);
        r
    }

    /// Which registered languages have at least one symbol, in registry order.
    pub fn languages(&self) -> (r: Vec<&'static str>)
        ensures
            r@.map_values(|s: &str| s@) == languages_present(self.symbols@, registry().len() as int),
    {
        let langs = languages();
        let mut r: Vec<&'static str> = Vec::new();
        let mut i: usize = 0;
        while i < langs.len()
            invariant
                i <= langs.len(),
                langs@.len() == registry().len(),
                forall|j: int| 0 <= j < langs@.len() ==> #[trigger] langs@[j].spec() == registry()[j],
                r@.map_values(|s: &str| s@) == languages_present(self.symbols@, i as int),
            decreases langs.len() - i,
        {
            assert(langs@[i as int].spec() == registry()[i as int]);
            let mut found = false;
            let mut j: usize = 0;
            while j < self.symbols.len()
                invariant
                    i < langs.len(),
                    langs@.len() == registry().len(),
                    langs@[i as int].spec() == registry()[i as int],
                    j <= self.symbols.len(),
                    found == exists|k: int| 0 <= k < j && #[trigger] lang_for_path(self.symbols@[k].loc.file@) == Some(registry()[i as int]),
                decreases self.symbols.len() - j,
            {
                match language_for_path(self.symbols[j].loc.file.as_str()) {
                    Some(l) => {
                        if str_eq(l.name, langs[i].name) {
                            proof {
                                lemma_lang_for_path_in_registry(self.symbols@[j as int].loc.file@);
                                lemma_registry_names_distinct(l.spec(), i as int);
                            }
                            found = true;
                        } else {
                            proof {
                                assert(lang_for_path(self.symbols@[j as int].loc.file@) != Some(registry()[i as int]));
                            }
                        }
                    },
                    None => {},
                }
                j += 1;
            }
            let ghost before = r@.map_values(|s: &str| s@);
            if found {
                r.push(langs[i].name);
                assert(r@.map_values(|s: &str| s@) =~= before.push(registry()[i as int].name));
            }
            i += 1;
        }
        r
    }

    /// Get outgoing dependencies from a symbol (by qualified name).
    pub fn deps_of(&self, qn: &str) -> (r: Vec<&Dependency>)
        ensures
            deps_seq(r@) == deps_from(self.deps@, qn@),
    {
        let ghost p = |d: Dependency| d.from_qualified@ == qn@;
        let mut r: Vec<&Dependency> = Vec::new();
        let mut i: usize = 0;
        while i < self.deps.len()
            invariant
                i <= self.deps.len(),
                p == (|d: Dependency| d.from_qualified@ == qn@),
                deps_seq(r@) == self.deps@.take(i as int).filter(p),
            decreases self.deps.len() - i,
        {
            proof {
                lemma_filter_step(self.deps@, i as int, p);
            }
            let ghost before = deps_seq(r@);
            if str_eq(self.deps[i].from_qualified.as_str(), qn) {
                r.push(&self.deps[i]);
                assert(deps_seq(r@) =~= before.push(self.deps@[i as int]));
            }
            i += 1;
        }
        assert(self.deps@.take(self.deps.len() as int) =~= self.deps@);
        r
    }

    /// Get incoming references to a name.
    ///
    /// Deps are matched on their normalized target:
    /// - a bare name (`Index`, `ensure_index`) matches every dep whose last
    ///   path segment is that name (and every call through an owner of that
    ///   name, `Index::new(...)`);
    /// - a qualified name (`Symbol::new`, `fmt.Println`) additionally requires
    ///   the dep's path to end with the query's segments, treating `::`, `.`
    ///   and `/` as the same separator.
    pub fn refs_to(&self, name: &str) -> (r: Vec<&Dependency>)
        ensures
            deps_seq(r@) == self.deps@.filter(refs_pred(name@)),
    {
        let key = dep_target_key(name);
        let p = Ghost(refs_pred(name@));
        if chars_of(key.as_str()).len() == 0 {
            proof {
                lemma_empty_key_no_refs(self.deps@, name@);
            }
            return Vec::new();
        }
        let trimmed = trim_str(name);
        let stripped = strip_generics(trimmed.as_str());
        let qualified = path_segments(stripped.as_str()).len() > 1;
        let mut r: Vec<&Dependency> = Vec::new();
        let mut i: usize = 0;
        while i < self.deps.len()
            invariant
                i <= self.deps.len(),
                p@ == refs_pred(name@),
                key@ == dep_target_key_spec(name@),
                key@.len() > 0,
                qualified == is_qualified_query(name@),
                deps_seq(r@) == self.deps@.take(i as int).filter(p@),
            decreases self.deps.len() - i,
        {
            proof {
                lemma_filter_step(self.deps@, i as int, p@);
            }
            let ghost before = deps_seq(r@);
            let d = &self.deps[i];
            if in_bucket(d, key.as_str()) && (!qualified || dep_matches(d.to_name.as_str(), name)) {
                r.push(d);
                assert(deps_seq(r@) =~= before.push(self.deps@[i as int]));
            }
            i += 1;
        }
        assert(self.deps@.take(self.deps.len() as int) =~= self.deps@);
        r
    }
}

/// The last symbol with qualified name `qn`.
pub open spec fn last_with_qualified(s: Seq<Symbol>, qn: Seq<char>) -> Option<Symbol>
    decreases s.len(),
{
    if s.len() == 0 {
        None
    } else if s.last().qualified_name@ == qn {
        Some(s.last())
    } else {
        last_with_qualified(s.drop_last(), qn)
    }
}

pub open spec fn kind_strs(v: Seq<&str>) -> Seq<Seq<char>> {
    v.map_values(|s: &str| s@)
}

fn kind_in(kinds: &Vec<&str>, k: &str) -> (r: bool)
    ensures
        r == kind_strs(kinds@).contains(k@),
{
    let mut i: usize = 0;
    while i < kinds.len()
        invariant
            i <= kinds.len(),
            forall|j: int| 0 <= j < i ==> kinds@[j]@ != k@,
        decreases kinds.len() - i,
    {
        if str_eq(kinds[i], k) {
            assert(kind_strs(kinds@)[i as int] == k@);
            return true;
        }
        i += 1;
    }
    assert(!kind_strs(kinds@).contains(k@)) by {
        if kind_strs(kinds@).contains(k@) {
            let j = choose|j: int| 0 <= j < kind_strs(kinds@).len() && kind_strs(kinds@)[j] == k@;
            assert(kinds@[j]@ == k@);
        }
    }
    false
}

/// Some symbol's file belongs to registry language `i`.
pub open spec fn language_present(s: Seq<Symbol>, i: int) -> bool {
    exists|k: int| 0 <= k < s.len() && #[trigger] lang_for_path(s[k].loc.file@) == Some(registry()[i])
}

/// Names of the registry languages among the first `n` that are present.
pub open spec fn languages_present(s: Seq<Symbol>, n: int) -> Seq<Seq<char>>
    decreases n,
{
    if n <= 0 {
        seq![]
    } else if language_present(s, n - 1) {
        languages_present(s, n - 1).push(registry()[n - 1].name)
    } else {
        languages_present(s, n - 1)
    }
}

/// Registry names are distinct, so an entry is found by its name.
pub proof fn lemma_registry_names_distinct(l: LangSpec, i: int)
    requires
        0 <= i < registry().len(),
        exists|j: int| 0 <= j < registry().len() && registry()[j] == l,
        l.name == registry()[i].name,
    ensures
        l == registry()[i],
{
    reveal_strlit("rust");
    reveal_strlit("java");
    reveal_strlit("go");
    reveal_strlit("typescript");
    reveal_strlit("python");
    let j = choose|j: int| 0 <= j < registry().len() && registry()[j] == l;
    assert(registry()[j].name[0] == registry()[i].name[0]);
}

/// The language found for a path is a registry entry.
pub proof fn lemma_lang_for_path_in_registry(p: Seq<char>)
    ensures
        lang_for_path(p) matches Some(l) ==> exists|j: int| 0 <= j < registry().len() && registry()[j] == l,
{
    match crate::paths::extension(p) {
        Some(e) => {
            lemma_lang_with_ext_range(e, 0);
            match crate::lang::lang_with_ext_from(e, 0) {
                Some(i) => {
                    assert(registry()[i] == registry()[i]);
                },
                None => {},
            }
        },
        None => {},
    }
}

proof fn lemma_lang_with_ext_range(e: Seq<char>, from: int)
    ensures
        crate::lang::lang_with_ext_from(e, from) matches Some(i) ==> from <= i < registry().len(),
    decreases registry().len() - from,
{
    if 0 <= from < registry().len() {
        lemma_lang_with_ext_range(e, from + 1);
    }
}

fn in_bucket(d: &Dependency, key: &str) -> (r: bool)
    requires
        key@.len() > 0,
    ensures
        r == in_reverse_bucket(*d, key@),
{
    let dk = dep_target_key(d.to_name.as_str());
    if chars_of(dk.as_str()).len() == 0 {
        return false;
    }
    if str_eq(dk.as_str(), key) {
        return true;
    }
    if d.kind == DepKind::Call {
        match crate::ir::names::dep_qualifier_key(d.to_name.as_str()) {
            Some(q) => str_eq(q.as_str(), key),
            None => false,
        }
    } else {
        false
    }
}

proof fn lemma_empty_key_no_refs(ds: Seq<Dependency>, name: Seq<char>)
    requires
        dep_target_key_spec(name).len() == 0,
    ensures
        ds.filter(refs_pred(name)) == Seq::<Dependency>::empty(),
    decreases ds.len(),
{
    reveal(Seq::filter);
    if ds.len() > 0 {
        lemma_empty_key_no_refs(ds.drop_last(), name);
        let d = ds.last();
        crate::ir::names::lemma_segments_nonempty(crate::ir::names::normalize_target_spec(d.to_name@));
        assert(dep_target_key_spec(name) =~= Seq::<char>::empty());
        if refs_pred(name)(d) {
            match dep_qualifier_key_spec(d.to_name@) {
                Some(q) => {
                    let segs = path_segments_spec(crate::ir::names::normalize_target_spec(d.to_name@));
                    assert(q == segs[segs.len() - 2]);
                },
                None => {},
            }
        }
    }
}

} // verus!

verus! {

/// The elements at the indices below `n` that satisfy `p` are the first `n`
/// elements filtered by `p`.
proof fn lemma_indices_select<A>(s: Seq<A>, n: nat, p: spec_fn(A) -> bool)
    requires
        n <= s.len(),
    ensures
        indices_where(n, |j: int| p(s[j])).map_values(|j: int| s[j]) == s.take(n as int).filter(p),
    decreases n,
{
    let hit = |j: int| p(s[j]);
    if n == 0 {
        reveal(Seq::filter);
        assert(s.take(0) =~= Seq::<A>::empty());
        assert(indices_where(0, hit).map_values(|j: int| s[j]) =~= Seq::<A>::empty());
    } else {
        let m = (n - 1) as nat;
        lemma_indices_select(s, m, p);
        lemma_filter_step(s, m as int, p);
        let prev = indices_where(m, hit);
        if hit(m as int) {
            assert(indices_where(n, hit) == prev.push(m as int));
            assert(prev.push(m as int).map_values(|j: int| s[j]) =~= prev.map_values(|j: int| s[j]).push(s[m as int]));
        } else {
            assert(indices_where(n, hit) == prev);
        }
    }
}

/// The last index below `n` whose element satisfies `p` holds the last such
/// element of the first `n`.
proof fn lemma_last_select(s: Seq<Symbol>, n: nat, qn: Seq<char>)
    requires
        n <= s.len(),
    ensures
        match last_where(n, |j: int| s[j].qualified_name@ == qn) {
            Some(j) => 0 <= j < n && last_with_qualified(s.take(n as int), qn) == Some(s[j]),
            None => last_with_qualified(s.take(n as int), qn) is None,
        },
    decreases n,
{
    if n > 0 {
        let m = (n - 1) as nat;
        lemma_last_select(s, m, qn);
        assert(s.take(n as int).drop_last() =~= s.take(m as int));
    }
}

/// In an index whose lookup tables are consistent, each table answers as the
/// matching scan does: the name and file tables list, in order, exactly the
/// symbols `by_name` and `by_file` return; the qualified table points at the
/// symbol `by_qualified` returns; and the reverse table lists, in order, the
/// dependencies in the key's reverse bucket.
pub proof fn lemma_lookups_answer_as_scans(ix: Index, k: Seq<char>)
    requires
        lookups_consistent(ix),
    ensures
        match table_get(table_view(ix.name_lookup@), k) {
            Some(b) => b.map_values(|j: int| ix.symbols@[j]) == symbols_named(ix.symbols@, k),
            None => symbols_named(ix.symbols@, k).len() == 0,
        },
        match table_get(table_view(ix.file_lookup@), k) {
            Some(b) => b.map_values(|j: int| ix.symbols@[j]) == symbols_in_file(ix.symbols@, k),
            None => symbols_in_file(ix.symbols@, k).len() == 0,
        },
        match table_get(single_table_view(ix.qualified_lookup@), k) {
            Some(j) => 0 <= j < ix.symbols@.len() && last_with_qualified(ix.symbols@, k) == Some(ix.symbols@[j]),
            None => last_with_qualified(ix.symbols@, k) is None,
        },
        match table_get(table_view(ix.reverse_deps@), k) {
            Some(b) => b.map_values(|j: int| ix.deps@[j]) == ix.deps@.filter(|d: Dependency| in_reverse_bucket(d, k)),
            None => ix.deps@.filter(|d: Dependency| in_reverse_bucket(d, k)).len() == 0,
        },
{
    let ss = ix.symbols@;
    let ds = ix.deps@;
    assert(ss.take(ss.len() as int) =~= ss);
    assert(ds.take(ds.len() as int) =~= ds);
    let pn = named(k);
    let pf = defined_in(k);
    let pr = |d: Dependency| in_reverse_bucket(d, k);
    lemma_indices_select(ss, ss.len(), pn);
    lemma_indices_select(ss, ss.len(), pf);
    lemma_indices_select(ds, ds.len(), pr);
    lemma_last_select(ss, ss.len(), k);
    assert(name_hits(ss, k) =~= (|j: int| pn(ss[j])));
    assert(file_hits(ss, k) =~= (|j: int| pf(ss[j])));
    assert(reverse_hits(ds, k) =~= (|j: int| pr(ds[j])));
    assert(qualified_hits(ss, k) =~= (|j: int| ss[j].qualified_name@ == k));
}

} // verus!

verus! {

/// The normalized path segments of a query's target are a suffix of those
/// of a dependency's target (`Symbol::new` is a suffix of
/// `crate::ir::Symbol::new`, not of `Other::new`).
pub open spec fn target_ends_with_query(to_name: Seq<char>, name: Seq<char>) -> bool {
    let ts = path_segments_spec(crate::ir::names::normalize_target_spec(to_name));
    let qs = path_segments_spec(crate::ir::names::normalize_target_spec(name));
    qs.len() > 0 && qs.len() <= ts.len() && ts.skip(ts.len() - qs.len()) == qs
}

/// Is `d` filed under the lookup key `k`: under its own non-empty target
/// key, or, for a call through a path, under its owner's.
pub open spec fn filed_under(d: Dependency, k: Seq<char>) -> bool {
    let dk = dep_target_key_spec(d.to_name@);
    dk.len() > 0 && (dk == k || (d.kind == DepKind::Call && dep_qualifier_key_spec(d.to_name@) == Some(k)))
}

/// What `refs_to(name)` answers: dependencies of the index, in order, each
/// filed under the name's key; for a name of more than one path segment,
/// only those whose target ends with the name's segments. Every such
/// dependency is answered, and nothing else.
#[verifier::spinoff_prover]
pub proof fn lemma_refs_meaning(ds: Seq<Dependency>, name: Seq<char>)
    ensures
        forall|i: int| 0 <= i < ds.filter(refs_pred(name)).len() ==> {
            let d = #[trigger] ds.filter(refs_pred(name))[i];
            &&& ds.contains(d)
            &&& filed_under(d, dep_target_key_spec(name))
            &&& path_segments_spec(strip_generics_spec(trim(name))).len() > 1 ==> target_ends_with_query(d.to_name@, name)
        },
        forall|j: int| 0 <= j < ds.len() && filed_under(ds[j], dep_target_key_spec(name)) && (path_segments_spec(
            strip_generics_spec(trim(name)),
        ).len() > 1 ==> target_ends_with_query(ds[j].to_name@, name)) ==> #[trigger] ds.filter(refs_pred(name)).contains(
            ds[j],
        ),
{
    let p = refs_pred(name);
    assert forall|i: int| 0 <= i < ds.filter(p).len() implies {
        let d = #[trigger] ds.filter(p)[i];
        &&& ds.contains(d)
        &&& filed_under(d, dep_target_key_spec(name))
        &&& path_segments_spec(strip_generics_spec(trim(name))).len() > 1 ==> target_ends_with_query(d.to_name@, name)
    } by {
        ds.lemma_filter_pred(p, i);
        assert(ds.filter(p).contains(ds.filter(p)[i]));
        ds.lemma_filter_contains_rev(p, ds.filter(p)[i]);
    }
    assert forall|j: int| 0 <= j < ds.len() && filed_under(ds[j], dep_target_key_spec(name)) && (path_segments_spec(
        strip_generics_spec(trim(name)),
    ).len() > 1 ==> target_ends_with_query(ds[j].to_name@, name)) implies #[trigger] ds.filter(p).contains(ds[j]) by {
        ds.lemma_filter_contains(p, j);
    }
}

} // verus!
