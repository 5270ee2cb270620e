//! Query execution: resolve a query's source against the index into rows,
//! run the rows through the pipeline stages, and format them.

use vstd::prelude::*;
use crate::query::ast::ValueV;

use crate::index::types::{deps_from, deps_seq, refs_pred, symbols_named, syms, Index};
use crate::ir::types::{
    dep_kind_name, native_kinds, visibility_name, Dependency, Field, Param, Symbol, SymbolKind,
};
use crate::format::path_alias::{
    alias_header, alias_spec, compute_path_alias, shorten_spec, strs,
};
use crate::format::text::{param_texts, shown_params};
use crate::index::types::last_with_qualified;
use crate::query::ast::{
    queries_view, value_number, value_text, Batch, Condition, ConditionV, Enrichment, Op, Query,
    QueryV, Source, SourceV, Stage, StageV,
};
use crate::text::{
    byte_len, byte_len_exec, contains, decimal, ends_with, join, join_strings, lowercase, owned,
    pad_right, parse_i64, trim_end,
    parse_i64_spec, push_str, starts_with, str_contains, str_ends_with, str_eq, str_starts_with,
    to_lower, usize_to_string, views,
};

verus! {

// ---------------------------------------------------------------------------
// Rows
// ---------------------------------------------------------------------------

/// A result row: named fields with string values. A later entry for a key
/// overrides an earlier one.
#[derive(Debug)]
pub struct Row {
    pub fields: Vec<(String, String)>,
}

pub open spec fn entry_view(p: (String, String)) -> (Seq<char>, Seq<char>) {
    (p.0@, p.1@)
}

pub open spec fn entries_view(v: Seq<(String, String)>) -> Seq<(Seq<char>, Seq<char>)> {
    v.map_values(|p: (String, String)| entry_view(p))
}

/// The map the entries describe, later entries overriding earlier ones.
pub open spec fn entries_map(e: Seq<(Seq<char>, Seq<char>)>) -> Map<Seq<char>, Seq<char>>
    decreases e.len(),
{
    if e.len() == 0 {
        Map::empty()
    } else {
        entries_map(e.drop_last()).insert(e.last().0, e.last().1)
    }
}

/// Index of the last entry with key `k` among the first `n` entries.
pub open spec fn last_key_index(e: Seq<(Seq<char>, Seq<char>)>, k: Seq<char>, n: int) -> Option<int>
    decreases n,
{
    if n <= 0 {
        None
    } else if e[n - 1].0 == k {
        Some(n - 1)
    } else {
        last_key_index(e, k, n - 1)
    }
}

impl Row {
    pub open spec fn view(&self) -> Map<Seq<char>, Seq<char>> {
        entries_map(entries_view(self.fields@))
    }
}

pub open spec fn rows_view(v: Seq<Row>) -> Seq<Map<Seq<char>, Seq<char>>> {
    v.map_values(|r: Row| r@)
}

proof fn lemma_last_key_index(e: Seq<(Seq<char>, Seq<char>)>, k: Seq<char>, n: int)
    requires
        n <= e.len(),
    ensures
        last_key_index(e, k, n) matches Some(i) ==> 0 <= i < n && e[i].0 == k,
    decreases n,
{
    if n > 0 && e[n - 1].0 != k {
        lemma_last_key_index(e, k, n - 1);
    }
}

proof fn lemma_entries_map_last(e: Seq<(Seq<char>, Seq<char>)>, k: Seq<char>)
    ensures
        match last_key_index(e, k, e.len() as int) {
            Some(i) => 0 <= i < e.len() && e[i].0 == k && entries_map(e).contains_key(k)
                && entries_map(e)[k] == e[i].1,
            None => !entries_map(e).contains_key(k),
        },
    decreases e.len(),
{
    if e.len() > 0 {
        let d = e.drop_last();
        lemma_entries_map_last(d, k);
        lemma_last_key_index_prefix(e, k, d.len() as int);
    }
}

proof fn lemma_last_key_index_prefix(e: Seq<(Seq<char>, Seq<char>)>, k: Seq<char>, n: int)
    requires
        0 <= n <= e.len(),
    ensures
        last_key_index(e, k, n) == last_key_index(e.take(n), k, n),
    decreases n,
{
    if n > 0 {
        lemma_last_key_index_prefix(e, k, n - 1);
        lemma_last_key_index_prefix(e.take(n), k, n - 1);
        assert(e.take(n).take(n - 1) =~= e.take(n - 1));
    }
}

proof fn lemma_entries_map_update(e: Seq<(Seq<char>, Seq<char>)>, i: int, k: Seq<char>, v: Seq<char>)
    requires
        last_key_index(e, k, e.len() as int) == Some(i),
    ensures
        entries_map(e.update(i, (k, v))) == entries_map(e).insert(k, v),
    decreases e.len(),
{
    lemma_last_key_index(e, k, e.len() as int);
    let u = e.update(i, (k, v));
    if i == e.len() - 1 {
        assert(u.drop_last() =~= e.drop_last());
        assert(entries_map(u) =~= entries_map(e).insert(k, v));
    } else {
        let d = e.drop_last();
        lemma_last_key_index_prefix(e, k, d.len() as int);
        assert(e.take(d.len() as int) =~= d);
        assert(e.last().0 != k);
        assert(last_key_index(e, k, e.len() as int) == last_key_index(e, k, d.len() as int));
        lemma_entries_map_update(d, i, k, v);
        assert(u.drop_last() =~= d.update(i, (k, v)));
        assert(entries_map(u) =~= entries_map(e).insert(k, v));
    }
}

proof fn lemma_last_key_index_none(e: Seq<(Seq<char>, Seq<char>)>, k: Seq<char>, n: int)
    requires
        n <= e.len(),
        last_key_index(e, k, n) is None,
    ensures
        forall|j: int| 0 <= j < n ==> #[trigger] e[j].0 != k,
    decreases n,
{
    if n > 0 {
        lemma_last_key_index_none(e, k, n - 1);
    }
}

impl Row {
    /// Each field is held once.
    pub open spec fn wf(&self) -> bool {
        crate::index::types::keys_distinct(entries_view(self.fields@))
    }

    /// An empty row.
    pub fn new() -> (r: Row)
        ensures
            r@ == Map::<Seq<char>, Seq<char>>::empty(),
            r.wf(),
    {
        let r = Row { fields: Vec::new() };
        assert(entries_view(r.fields@) =~= Seq::<(Seq<char>, Seq<char>)>::empty());
        r
    }

    /// Set a field, replacing any earlier value.
    pub fn set(&mut self, key: &str, value: String)
        ensures
            final(self)@ == old(self)@.insert(key@, value@),
            old(self).wf() ==> final(self).wf(),
    {
        let ghost e = entries_view(self.fields@);
        let mut i = self.fields.len();
        while i > 0
            invariant
                i <= self.fields.len(),
                e == entries_view(self.fields@),
                e == entries_view(old(self).fields@),
                last_key_index(e, key@, e.len() as int) == last_key_index(e, key@, i as int),
            decreases i,
        {
            assert(e[i - 1] == entry_view(self.fields@[i - 1]));
            if str_eq(self.fields[i - 1].0.as_str(), key) {
                proof {
                    lemma_entries_map_update(e, i - 1, key@, value@);
                }
                let k = owned(key);
                let ghost vv = value@;
                self.fields.set(i - 1, (k, value));
                assert(entries_view(self.fields@) =~= e.update(i - 1, (key@, vv)));
                assert(self@ == entries_map(e.update(i - 1, (key@, vv))));
                assert(self@ == entries_map(e).insert(key@, vv));
                proof {
                    let u = e.update(i - 1, (key@, vv));
                    if crate::index::types::keys_distinct(e) {
                        assert forall|a: int, b: int| 0 <= a < b < u.len() implies #[trigger] u[a].0 != #[trigger] u[b].0 by {
                            assert(u[a].0 == e[a].0 && u[b].0 == e[b].0);
                        }
                    }
                }
                return;
            }
            i -= 1;
        }
        self.fields.push((owned(key), value));
        assert(entries_view(self.fields@) =~= e.push((key@, value@)));
        assert(entries_view(self.fields@).drop_last() =~= e);
        proof {
            lemma_last_key_index_none(e, key@, e.len() as int);
            let u = e.push((key@, value@));
            if crate::index::types::keys_distinct(e) {
                assert forall|a: int, b: int| 0 <= a < b < u.len() implies #[trigger] u[a].0 != #[trigger] u[b].0 by {
                    if b == u.len() - 1 {
                        assert(u[a] == e[a]);
                    } else {
                        assert(u[a] == e[a] && u[b] == e[b]);
                    }
                }
            }
        }
    }

    /// The value of a field, if set.
    pub fn get(&self, key: &str) -> (r: Option<&String>)
        ensures
            match r {
                Some(v) => self@.contains_key(key@) && self@[key@] == v@,
                None => !self@.contains_key(key@),
            },
    {
        let ghost e = entries_view(self.fields@);
        proof {
            lemma_entries_map_last(e, key@);
        }
        let mut i = self.fields.len();
        while i > 0
            invariant
                i <= self.fields.len(),
                e == entries_view(self.fields@),
                last_key_index(e, key@, e.len() as int) == last_key_index(e, key@, i as int),
            decreases i,
        {
            assert(e[i - 1] == entry_view(self.fields@[i - 1]));
            if str_eq(self.fields[i - 1].0.as_str(), key) {
                assert(last_key_index(e, key@, i as int) == Some(i - 1));
                proof {
                    lemma_entries_map_last(e, key@);
                }
                return Some(&self.fields[i - 1].1);
            }
            i -= 1;
        }
        None
    }

    /// A copy of the row.
    pub fn duplicate(&self) -> (r: Row)
        ensures
            r@ == self@,
    {
        let mut v: Vec<(String, String)> = Vec::new();
        let mut i: usize = 0;
        while i < self.fields.len()
            invariant
                i <= self.fields.len(),
                entries_view(v@) == entries_view(self.fields@).take(i as int),
            decreases self.fields.len() - i,
        {
            let ghost before = entries_view(v@);
            v.push((self.fields[i].0.clone(), self.fields[i].1.clone()));
            assert(entries_view(v@) =~= before.push(entry_view(self.fields@[i as int])));
            assert(entries_view(self.fields@).take(i + 1) =~= entries_view(self.fields@).take(i as int).push(
                entry_view(self.fields@[i as int]),
            ));
            i += 1;
        }
        assert(entries_view(self.fields@).take(self.fields.len() as int) =~= entries_view(self.fields@));
        Row { fields: v }
    }
}

/// Reading a field back gives what was last written to it; writing one
/// field leaves the others as they were.
pub proof fn lemma_row_read_after_write(m: Map<Seq<char>, Seq<char>>, k: Seq<char>, v: Seq<char>, other: Seq<char>)
    requires
        other != k,
    ensures
        m.insert(k, v).contains_key(k) && m.insert(k, v)[k] == v,
        m.insert(k, v).contains_key(other) == m.contains_key(other),
        m.contains_key(other) ==> m.insert(k, v)[other] == m[other],
{
}

// ---------------------------------------------------------------------------
// Conditions
// ---------------------------------------------------------------------------

/// Does a row (as a map) satisfy a condition? Text comparisons ignore letter
/// case and read a number as its decimal text; ordering comparisons need
/// both sides to be integers.
pub open spec fn matches_spec(row: Map<Seq<char>, Seq<char>>, c: ConditionV) -> bool {
    let present = row.contains_key(c.field);
    let val = row[c.field];
    let target = value_text(c.value);
    match c.op {
        Op::Eq => present && (lowercase(val) == lowercase(target) || val == target),
        Op::NotEq => !present || lowercase(val) != lowercase(target),
        Op::Contains => present && contains(lowercase(val), lowercase(target)),
        Op::StartsWith => present && starts_with(lowercase(val), lowercase(target)),
        Op::EndsWith => present && ends_with(lowercase(val), lowercase(target)),
        _ => {
            let fv = if present { parse_i64_spec(val) } else { None };
            match (fv, value_number(c.value)) {
                (Some(a), Some(b)) => match c.op {
                    Op::Gt => a > b,
                    Op::Lt => a < b,
                    Op::Gte => a >= b,
                    _ => a <= b,
                },
                _ => false,
            }
        },
    }
}

/// Some group of the disjunction has all its conditions satisfied.
pub open spec fn matches_dnf(row: Map<Seq<char>, Seq<char>>, dnf: Seq<Seq<ConditionV>>) -> bool {
    exists|g: int| 0 <= g < dnf.len() && #[trigger] group_holds(row, dnf[g])
}

/// Every condition of the group holds.
pub open spec fn group_holds(row: Map<Seq<char>, Seq<char>>, group: Seq<ConditionV>) -> bool {
    forall|j: int| 0 <= j < group.len() ==> #[trigger] matches_spec(row, group[j])
}

/// The rows that satisfy the disjunction, in order.
pub open spec fn filter_spec(rows: Seq<Map<Seq<char>, Seq<char>>>, dnf: Seq<Seq<ConditionV>>) -> Seq<Map<Seq<char>, Seq<char>>> {
    rows.filter(|r: Map<Seq<char>, Seq<char>>| matches_dnf(r, dnf))
}

/// Check if a row matches a condition.
fn matches_condition(row: &Row, condition: &Condition) -> (r: bool)
    ensures
        r == matches_spec(row@, condition.view()),
{
    let field_val = row.get(condition.field.as_str());
    match condition.op {
        Op::Eq => {
            let target_text = condition.value.text();
            let target = target_text.as_str();
            match field_val {
                Some(val) => {
                    let a = to_lower(val.as_str());
                    let b = to_lower(target);
                    str_eq(a.as_str(), b.as_str()) || str_eq(val.as_str(), target)
                },
                None => false,
            }
        },
        Op::NotEq => {
            let target_text = condition.value.text();
            let target = target_text.as_str();
            match field_val {
                Some(val) => {
                    let a = to_lower(val.as_str());
                    let b = to_lower(target);
                    !str_eq(a.as_str(), b.as_str())
                },
                None => true,
            }
        },
        Op::Contains => {
            let target_text = condition.value.text();
            let target = target_text.as_str();
            match field_val {
                Some(val) => {
                    let a = to_lower(val.as_str());
                    let b = to_lower(target);
                    str_contains(a.as_str(), b.as_str())
                },
                None => false,
            }
        },
        Op::StartsWith => {
            let target_text = condition.value.text();
            let target = target_text.as_str();
            match field_val {
                Some(val) => {
                    let a = to_lower(val.as_str());
                    let b = to_lower(target);
                    str_starts_with(a.as_str(), b.as_str())
                },
                None => false,
            }
        },
        Op::EndsWith => {
            let target_text = condition.value.text();
            let target = target_text.as_str();
            match field_val {
                Some(val) => {
                    let a = to_lower(val.as_str());
                    let b = to_lower(target);
                    str_ends_with(a.as_str(), b.as_str())
                },
                None => false,
            }
        },
        _ => {
            let target_num = condition.value.as_number();
            let field_num = match field_val {
                Some(v) => parse_i64(v.as_str()),
                None => None,
            };
            match (field_num, target_num) {
                (Some(fv), Some(tv)) => match condition.op {
                    Op::Gt => fv > tv,
                    Op::Lt => fv < tv,
                    Op::Gte => fv >= tv,
                    _ => fv <= tv,
                },
                _ => false,
            }
        },
    }
}

fn matches_group(row: &Row, group: &Vec<Condition>) -> (r: bool)
    ensures
        r == group_holds(row@, crate::query::ast::group_view(group@)),
{
    let ghost gv = crate::query::ast::group_view(group@);
    let mut i: usize = 0;
    while i < group.len()
        invariant
            i <= group.len(),
            gv == crate::query::ast::group_view(group@),
            forall|j: int| 0 <= j < i ==> #[trigger] matches_spec(row@, gv[j]),
        decreases group.len() - i,
    {
        assert(gv[i as int] == group@[i as int].view());
        if !matches_condition(row, &group[i]) {
            return false;
        }
        i += 1;
    }
    true
}

fn matches_any(row: &Row, dnf: &Vec<Vec<Condition>>) -> (r: bool)
    ensures
        r == matches_dnf(row@, crate::query::ast::dnf_view(dnf@)),
{
    let ghost d = crate::query::ast::dnf_view(dnf@);
    let mut g: usize = 0;
    while g < dnf.len()
        invariant
            g <= dnf.len(),
            d == crate::query::ast::dnf_view(dnf@),
            forall|h: int| 0 <= h < g ==> !(#[trigger] group_holds(row@, d[h])),
        decreases dnf.len() - g,
    {
        let ok = matches_group(row, &dnf[g]);
        assert(d[g as int] == crate::query::ast::group_view(dnf@[g as int]@));
        if ok {
            assert(group_holds(row@, d[g as int]));
            return true;
        }
        g += 1;
    }
    false
}

/// Filter rows by DNF conditions (OR of AND groups).
fn filter_rows(rows: Vec<Row>, dnf: &Vec<Vec<Condition>>) -> (r: Vec<Row>)
    ensures
        rows_view(r@) == filter_spec(rows_view(rows@), crate::query::ast::dnf_view(dnf@)),
{
    let ghost d = crate::query::ast::dnf_view(dnf@);
    let ghost p = |m: Map<Seq<char>, Seq<char>>| matches_dnf(m, d);
    let ghost rv = rows_view(rows@);
    assert(rv.skip(0) =~= rv);
    let mut out: Vec<Row> = Vec::new();
    let mut rows = rows;
    let n = rows.len();
    let mut i: usize = 0;
    while i < n
        invariant
            i <= n,
            n == rv.len(),
            rows.len() == n - i,
            rows_view(rows@) == rv.skip(i as int),
            p == (|m: Map<Seq<char>, Seq<char>>| matches_dnf(m, d)),
            d == crate::query::ast::dnf_view(dnf@),
            rows_view(out@) == rv.take(i as int).filter(p),
        decreases n - i,
    {
        let ghost rs = rows@;
        let row = rows.remove(0);
        proof {
            assert(rv.skip(i as int)[0] == rv[i as int]);
            assert(rows_view(rs)[0] == row@);
            crate::index::types::lemma_filter_step(rv, i as int, p);
            assert(rows@ =~= rs.skip(1));
            assert(rows_view(rs) == rv.skip(i as int));
            assert(rows_view(rows@) =~= rows_view(rs).skip(1));
            assert(rows_view(rows@) =~= rv.skip(i + 1));
        }
        let ghost before = rows_view(out@);
        if matches_any(&row, dnf) {
            out.push(row);
            assert(rows_view(out@) =~= before.push(rv[i as int]));
        }
        i += 1;
    }
    assert(rv.take(n as int) =~= rv);
    out
}

// ---------------------------------------------------------------------------
// Rows from symbols and dependencies
// ---------------------------------------------------------------------------

/// `Parent::name` for a member, the bare name otherwise.
pub open spec fn row_display_name(s: Symbol) -> Seq<char> {
    match s.parent {
        Some(p) => p@ + "::"@ + s.name@,
        None => s.name@,
    }
}

pub open spec fn opt_insert(m: Map<Seq<char>, Seq<char>>, k: Seq<char>, v: Option<String>) -> Map<Seq<char>, Seq<char>> {
    match v {
        Some(x) => m.insert(k, x@),
        None => m,
    }
}

/// The row of a symbol.
pub open spec fn symbol_row(s: Symbol) -> Map<Seq<char>, Seq<char>> {
    let m = Map::<Seq<char>, Seq<char>>::empty()
        .insert("name"@, s.name@)
        .insert("qualified_name"@, s.qualified_name@)
        .insert("kind"@, s.kind@)
        .insert("file"@, s.loc.file@)
        .insert("line"@, decimal(s.loc.line as nat))
        .insert("visibility"@, visibility_name(s.visibility));
    let m = opt_insert(m, "parent"@, s.parent);
    let m = opt_insert(m, "signature"@, s.signature);
    let m = opt_insert(m, "return_type"@, s.return_type);
    let m = if s.attributes@.len() > 0 {
        m.insert("attributes"@, join(views(s.attributes@), ", "@))
    } else {
        m
    };
    m.insert("field_count"@, decimal(s.fields@.len()))
        .insert("param_count"@, decimal(s.params@.len()))
        .insert("display_name"@, row_display_name(s))
}

/// The row of a dependency.
pub open spec fn dep_row(d: Dependency) -> Map<Seq<char>, Seq<char>> {
    Map::<Seq<char>, Seq<char>>::empty()
        .insert("from"@, d.from_qualified@)
        .insert("to"@, d.to_name@)
        .insert("dep_kind"@, dep_kind_name(d.kind))
        .insert("file"@, d.loc.file@)
        .insert("line"@, decimal(d.loc.line as nat))
}

fn set_opt(row: &mut Row, key: &str, v: &Option<String>)
    ensures
        final(row)@ == opt_insert(old(row)@, key@, *v),
{
    match v {
        Some(x) => row.set(key, x.clone()),
        None => {},
    }
}

/// Convert a Symbol to a Row.
fn symbol_to_row(sym: &Symbol) -> (r: Row)
    ensures
        r@ == symbol_row(*sym),
{
    let mut row = Row::new();
    row.set("name", sym.name.clone());
    row.set("qualified_name", sym.qualified_name.clone());
    row.set("kind", sym.kind.clone());
    row.set("file", sym.loc.file.clone());
    row.set("line", usize_to_string(sym.loc.line));
    row.set("visibility", owned(sym.visibility.name()));
    set_opt(&mut row, "parent", &sym.parent);
    set_opt(&mut row, "signature", &sym.signature);
    set_opt(&mut row, "return_type", &sym.return_type);
    if sym.attributes.len() > 0 {
        row.set("attributes", join_strings(&sym.attributes, ", "));
    }
    row.set("field_count", usize_to_string(sym.fields.len()));
    row.set("param_count", usize_to_string(sym.params.len()));
    match &sym.parent {
        Some(p) => {
            let mut dn = owned(p.as_str());
            push_str(&mut dn, "::");
            push_str(&mut dn, sym.name.as_str());
            row.set("display_name", dn);
        },
        None => row.set("display_name", sym.name.clone()),
    }
    row
}

/// Convert a Dependency to a Row.
fn dep_to_row(dep: &Dependency) -> (r: Row)
    ensures
        r@ == dep_row(*dep),
{
    let mut row = Row::new();
    row.set("from", dep.from_qualified.clone());
    row.set("to", dep.to_name.clone());
    row.set("dep_kind", owned(dep.kind.name()));
    row.set("file", dep.loc.file.clone());
    row.set("line", usize_to_string(dep.loc.line));
    row
}

// ---------------------------------------------------------------------------
// Sources
// ---------------------------------------------------------------------------

/// `rows` filtered by the where clause, when there is one.
pub open spec fn with_where(rows: Seq<Map<Seq<char>, Seq<char>>>, w: Seq<Seq<ConditionV>>) -> Seq<Map<Seq<char>, Seq<char>>> {
    if w.len() == 0 {
        rows
    } else {
        filter_spec(rows, w)
    }
}

/// Does a symbol pass the kind filter and the file filter of a symbols source?
pub open spec fn symbol_selected(s: Symbol, kf: Option<SymbolKind>, in_file: Option<Seq<char>>) -> bool {
    &&& match in_file {
        Some(f) => contains(s.loc.file@, f),
        None => true,
    }
    &&& match kf {
        Some(k) => native_kinds(k).contains(s.kind@),
        None => true,
    }
}

pub open spec fn symbol_rows_spec(ss: Seq<Symbol>) -> Seq<Map<Seq<char>, Seq<char>>> {
    ss.map_values(|s: Symbol| symbol_row(s))
}

pub open spec fn dep_rows_spec(ds: Seq<Dependency>) -> Seq<Map<Seq<char>, Seq<char>>> {
    ds.map_values(|d: Dependency| dep_row(d))
}

/// The symbols a symbols source selects, in index order.
pub open spec fn selected_symbols(ss: Seq<Symbol>, kf: Option<SymbolKind>, in_file: Option<Seq<char>>) -> Seq<Symbol> {
    ss.filter(|s: Symbol| symbol_selected(s, kf, in_file))
}

/// The outgoing dependencies of each listed symbol, symbol by symbol.
pub open spec fn deps_of_symbols(ss: Seq<Symbol>, ds: Seq<Dependency>) -> Seq<Dependency>
    decreases ss.len(),
{
    if ss.len() == 0 {
        seq![]
    } else {
        deps_of_symbols(ss.drop_last(), ds) + deps_from(ds, ss.last().qualified_name@)
    }
}

/// The rows a source clause starts with.
pub open spec fn source_rows(src: SourceV, ss: Seq<Symbol>, ds: Seq<Dependency>) -> Seq<Map<Seq<char>, Seq<char>>> {
    match src {
        SourceV::Symbols { kind_filter, in_file, where_clause } => with_where(
            symbol_rows_spec(selected_symbols(ss, kind_filter, in_file)),
            where_clause,
        ),
        SourceV::Symbol { name, where_clause } => with_where(
            symbol_rows_spec(symbols_named(ss, name)),
            where_clause,
        ),
        SourceV::Deps { name, where_clause } => with_where(
            dep_rows_spec(
                match name {
                    Some(n) => deps_of_symbols(symbols_named(ss, n), ds),
                    None => ds,
                },
            ),
            where_clause,
        ),
        SourceV::Refs { name, where_clause } => with_where(
            dep_rows_spec(
                match name {
                    Some(n) => ds.filter(refs_pred(n)),
                    None => ds,
                },
            ),
            where_clause,
        ),
    }
}

fn kind_in(k: &str, ks: &Vec<&'static str>) -> (r: bool)
    ensures
        r == ks@.map_values(|s: &str| s@).contains(k@),
{
    let ghost kv = ks@.map_values(|s: &str| s@);
    let mut i: usize = 0;
    while i < ks.len()
        invariant
            i <= ks.len(),
            kv == ks@.map_values(|s: &str| s@),
            forall|j: int| 0 <= j < i ==> kv[j] != k@,
        decreases ks.len() - i,
    {
        if str_eq(ks[i], k) {
            assert(kv[i as int] == k@);
            return true;
        }
        i += 1;
    }
    false
}

fn symbol_passes(s: &Symbol, kf: &Option<SymbolKind>, in_file: &Option<String>) -> (r: bool)
    ensures
        r == symbol_selected(*s, *kf, crate::query::ast::opt_view(*in_file)),
{
    let file_ok = match in_file {
        Some(f) => str_contains(s.loc.file.as_str(), f.as_str()),
        None => true,
    };
    if !file_ok {
        return false;
    }
    match kf {
        Some(k) => kind_in(s.kind.as_str(), &k.native_kinds()),
        None => true,
    }
}

fn apply_where(rows: Vec<Row>, w: &Vec<Vec<Condition>>) -> (r: Vec<Row>)
    ensures
        rows_view(r@) == with_where(rows_view(rows@), crate::query::ast::dnf_view(w@)),
{
    if w.len() == 0 {
        rows
    } else {
        filter_rows(rows, w)
    }
}

fn symbol_rows(v: &Vec<&Symbol>) -> (r: Vec<Row>)
    ensures
        rows_view(r@) == symbol_rows_spec(syms(v@)),
{
    let mut out: Vec<Row> = Vec::new();
    let mut i: usize = 0;
    while i < v.len()
        invariant
            i <= v.len(),
            rows_view(out@) == syms(v@).take(i as int).map_values(|s: Symbol| symbol_row(s)),
        decreases v.len() - i,
    {
        let ghost before = rows_view(out@);
        out.push(symbol_to_row(v[i]));
        assert(rows_view(out@) =~= before.push(symbol_row(*v@[i as int])));
        assert(syms(v@).take(i + 1).map_values(|s: Symbol| symbol_row(s)) =~= syms(v@).take(i as int).map_values(
            |s: Symbol| symbol_row(s),
        ).push(symbol_row(*v@[i as int])));
        i += 1;
    }
    assert(syms(v@).take(v.len() as int) =~= syms(v@));
    out
}

fn dep_rows(v: &Vec<&Dependency>) -> (r: Vec<Row>)
    ensures
        rows_view(r@) == dep_rows_spec(deps_seq(v@)),
{
    let mut out: Vec<Row> = Vec::new();
    let mut i: usize = 0;
    while i < v.len()
        invariant
            i <= v.len(),
            rows_view(out@) == deps_seq(v@).take(i as int).map_values(|d: Dependency| dep_row(d)),
        decreases v.len() - i,
    {
        let ghost before = rows_view(out@);
        out.push(dep_to_row(v[i]));
        assert(rows_view(out@) =~= before.push(dep_row(*v@[i as int])));
        assert(deps_seq(v@).take(i + 1).map_values(|d: Dependency| dep_row(d)) =~= deps_seq(v@).take(
            i as int,
        ).map_values(|d: Dependency| dep_row(d)).push(dep_row(*v@[i as int])));
        i += 1;
    }
    assert(deps_seq(v@).take(v.len() as int) =~= deps_seq(v@));
    out
}

fn all_deps(index: &Index) -> (r: Vec<&Dependency>)
    ensures
        deps_seq(r@) == index.deps@,
{
    let mut out: Vec<&Dependency> = Vec::new();
    let mut i: usize = 0;
    while i < index.deps.len()
        invariant
            i <= index.deps.len(),
            deps_seq(out@) == index.deps@.take(i as int),
        decreases index.deps.len() - i,
    {
        let ghost before = deps_seq(out@);
        out.push(&index.deps[i]);
        assert(deps_seq(out@) =~= before.push(index.deps@[i as int]));
        assert(deps_seq(out@) =~= index.deps@.take(i + 1));
        i += 1;
    }
    assert(index.deps@.take(index.deps.len() as int) =~= index.deps@);
    out
}

/// Resolve the source clause into initial rows.
fn resolve_source(source: &Source, index: &Index) -> (r: Vec<Row>)
    ensures
        rows_view(r@) == source_rows(source.view(), index.symbols@, index.deps@),
{
    match source {
        Source::Symbols { kind_filter, in_file, where_clause } => {
            let ghost p = |s: Symbol| symbol_selected(s, *kind_filter, crate::query::ast::opt_view(*in_file));
            let mut sel: Vec<&Symbol> = Vec::new();
            let mut i: usize = 0;
            while i < index.symbols.len()
                invariant
                    i <= index.symbols.len(),
                    p == (|s: Symbol| symbol_selected(s, *kind_filter, crate::query::ast::opt_view(*in_file))),
                    syms(sel@) == index.symbols@.take(i as int).filter(p),
                decreases index.symbols.len() - i,
            {
                proof {
                    crate::index::types::lemma_filter_step(index.symbols@, i as int, p);
                }
                let ghost before = syms(sel@);
                if symbol_passes(&index.symbols[i], kind_filter, in_file) {
                    sel.push(&index.symbols[i]);
                    assert(syms(sel@) =~= before.push(index.symbols@[i as int]));
                }
                i += 1;
            }
            assert(index.symbols@.take(index.symbols.len() as int) =~= index.symbols@);
            assert(syms(sel@) == selected_symbols(index.symbols@, *kind_filter, crate::query::ast::opt_view(*in_file))) by {
                let kf = *kind_filter;
                let inf = crate::query::ast::opt_view(*in_file);
                assert(p =~= (|s: Symbol| symbol_selected(s, kf, inf)));
            }
            let rows = symbol_rows(&sel);
            assert(rows_view(rows@) == symbol_rows_spec(selected_symbols(index.symbols@, *kind_filter, crate::query::ast::opt_view(*in_file))));
            let r = apply_where(rows, where_clause);
            assert(source.view() == (SourceV::Symbols { kind_filter: *kind_filter, in_file: crate::query::ast::opt_view(*in_file), where_clause: crate::query::ast::dnf_view(where_clause@) }));
            r
        },
        Source::Symbol { name, where_clause } => {
            let sel = index.by_name(name.as_str());
            let rows = symbol_rows(&sel);
            apply_where(rows, where_clause)
        },
        Source::Deps { name, where_clause } => {
            let deps: Vec<&Dependency> = match name {
                Some(n) => {
                    let named = index.by_name(n.as_str());
                    let ghost nv = syms(named@);
                    let mut out: Vec<&Dependency> = Vec::new();
                    let mut i: usize = 0;
                    assert(nv.take(0) =~= Seq::<Symbol>::empty());
                    while i < named.len()
                        invariant
                            i <= named.len(),
                            nv == syms(named@),
                            deps_seq(out@) == deps_of_symbols(nv.take(i as int), index.deps@),
                        decreases named.len() - i,
                    {
                        let ds = index.deps_of(named[i].qualified_name.as_str());
                        let ghost before = deps_seq(out@);
                        let mut j: usize = 0;
                        assert(before + deps_seq(ds@).take(0) =~= before);
                        while j < ds.len()
                            invariant
                                j <= ds.len(),
                                deps_seq(out@) == before + deps_seq(ds@).take(j as int),
                            decreases ds.len() - j,
                        {
                            let ghost b2 = deps_seq(out@);
                            out.push(ds[j]);
                            assert(deps_seq(out@) =~= b2.push(*ds@[j as int]));
                            assert(deps_seq(out@) =~= before + deps_seq(ds@).take(j + 1));
                            j += 1;
                        }
                        assert(deps_seq(ds@).take(ds.len() as int) =~= deps_seq(ds@));
                        assert(nv.take(i + 1).drop_last() =~= nv.take(i as int));
                        assert(nv.take(i + 1).last() == *named@[i as int]);
                        i += 1;
                    }
                    assert(nv.take(named.len() as int) =~= nv);
                    out
                },
                None => all_deps(index),
            };
            let rows = dep_rows(&deps);
            apply_where(rows, where_clause)
        },
        Source::Refs { name, where_clause } => {
            let deps: Vec<&Dependency> = match name {
                Some(n) => index.refs_to(n.as_str()),
                None => all_deps(index),
            };
            let rows = dep_rows(&deps);
            apply_where(rows, where_clause)
        },
    }
}

// ---------------------------------------------------------------------------
// Enrichment
// ---------------------------------------------------------------------------

pub open spec fn field_text(f: Field) -> Seq<char> {
    f.name@ + ": "@ + f.type_str@
}

pub open spec fn field_texts(fs: Seq<Field>) -> Seq<Seq<char>> {
    fs.map_values(|f: Field| field_text(f))
}

pub open spec fn dep_text(d: Dependency) -> Seq<char> {
    d.from_qualified@ + " -> "@ + d.to_name@ + " ("@ + dep_kind_name(d.kind) + ")"@
}

pub open spec fn dep_texts(ds: Seq<Dependency>) -> Seq<Seq<char>> {
    ds.map_values(|d: Dependency| dep_text(d))
}

pub open spec fn ref_text(d: Dependency) -> Seq<char> {
    d.to_name@ + " ("@ + dep_kind_name(d.kind) + ") from "@ + d.from_qualified@
}

pub open spec fn ref_texts(ds: Seq<Dependency>) -> Seq<Seq<char>> {
    ds.map_values(|d: Dependency| ref_text(d))
}

/// A row with one enrichment applied; rows whose symbol has nothing to add
/// are unchanged.
pub open spec fn enrich_spec(
    r: Map<Seq<char>, Seq<char>>,
    e: Enrichment,
    ss: Seq<Symbol>,
    ds: Seq<Dependency>,
) -> Map<Seq<char>, Seq<char>> {
    let has_qn = r.contains_key("qualified_name"@);
    let qn = r["qualified_name"@];
    match e {
        Enrichment::Fields => if !has_qn {
            r
        } else {
            match last_with_qualified(ss, qn) {
                Some(sym) => if sym.fields@.len() > 0 {
                    r.insert("fields"@, join(field_texts(sym.fields@), ", "@)).insert(
                        "field_count"@,
                        decimal(sym.fields@.len()),
                    )
                } else {
                    r
                },
                None => r,
            }
        },
        Enrichment::Params => if !has_qn {
            r
        } else {
            match last_with_qualified(ss, qn) {
                Some(sym) => if sym.params@.len() > 0 {
                    r.insert("params"@, join(shown_params(sym.params@), ", "@)).insert(
                        "param_count"@,
                        decimal(sym.params@.len()),
                    )
                } else {
                    r
                },
                None => r,
            }
        },
        Enrichment::Deps => if !has_qn {
            r
        } else {
            let dd = deps_from(ds, qn);
            if dd.len() > 0 {
                r.insert("deps"@, join(dep_texts(dd), "; "@)).insert("dep_count"@, decimal(dd.len()))
            } else {
                r
            }
        },
        Enrichment::Refs => if !r.contains_key("name"@) {
            r
        } else {
            let rr = ds.filter(refs_pred(r["name"@]));
            if rr.len() > 0 {
                r.insert("refs"@, join(ref_texts(rr), "; "@)).insert("ref_count"@, decimal(rr.len()))
            } else {
                r
            }
        },
        Enrichment::Signature => if !has_qn {
            r
        } else {
            match last_with_qualified(ss, qn) {
                Some(sym) => match sym.signature {
                    Some(sig) => r.insert("signature"@, sig@),
                    None => r,
                },
                None => r,
            }
        },
    }
}

/// A row with the enrichments applied in order.
pub open spec fn enrich_all(
    r: Map<Seq<char>, Seq<char>>,
    es: Seq<Enrichment>,
    ss: Seq<Symbol>,
    ds: Seq<Dependency>,
) -> Map<Seq<char>, Seq<char>>
    decreases es.len(),
{
    if es.len() == 0 {
        r
    } else {
        enrich_spec(enrich_all(r, es.drop_last(), ss, ds), es.last(), ss, ds)
    }
}

fn texts_of_fields(fs: &Vec<Field>) -> (r: Vec<String>)
    ensures
        views(r@) == field_texts(fs@),
{
    let mut out: Vec<String> = Vec::new();
    let mut i: usize = 0;
    while i < fs.len()
        invariant
            i <= fs.len(),
            views(out@) == field_texts(fs@).take(i as int),
        decreases fs.len() - i,
    {
        let mut t = fs[i].name.clone();
        push_str(&mut t, ": ");
        push_str(&mut t, fs[i].type_str.as_str());
        let ghost before = views(out@);
        out.push(t);
        assert(views(out@) =~= before.push(field_text(fs@[i as int])));
        assert(field_texts(fs@).take(i + 1) =~= field_texts(fs@).take(i as int).push(field_text(fs@[i as int])));
        i += 1;
    }
    assert(field_texts(fs@).take(fs.len() as int) =~= field_texts(fs@));
    out
}

fn texts_of_deps(v: &Vec<&Dependency>, as_refs: bool) -> (r: Vec<String>)
    ensures
        views(r@) == if as_refs { ref_texts(deps_seq(v@)) } else { dep_texts(deps_seq(v@)) },
{
    let ghost f = if as_refs { ref_texts(deps_seq(v@)) } else { dep_texts(deps_seq(v@)) };
    let mut out: Vec<String> = Vec::new();
    let mut i: usize = 0;
    while i < v.len()
        invariant
            i <= v.len(),
            f == if as_refs { ref_texts(deps_seq(v@)) } else { dep_texts(deps_seq(v@)) },
            views(out@) == f.take(i as int),
        decreases v.len() - i,
    {
        let d = v[i];
        let t = if as_refs {
            let mut t = d.to_name.clone();
            push_str(&mut t, " (");
            push_str(&mut t, d.kind.name());
            push_str(&mut t, ") from ");
            push_str(&mut t, d.from_qualified.as_str());
            t
        } else {
            let mut t = d.from_qualified.clone();
            push_str(&mut t, " -> ");
            push_str(&mut t, d.to_name.as_str());
            push_str(&mut t, " (");
            push_str(&mut t, d.kind.name());
            push_str(&mut t, ")");
            t
        };
        assert(t@ == f[i as int]);
        let ghost before = views(out@);
        out.push(t);
        assert(views(out@) =~= before.push(f[i as int]));
        assert(f.take(i + 1) =~= f.take(i as int).push(f[i as int]));
        i += 1;
    }
    assert(f.take(v.len() as int) =~= f);
    out
}

/// Enrich a row with additional data from the index.
fn enrich_row(row: &mut Row, enrichment: Enrichment, index: &Index)
    ensures
        final(row)@ == enrich_spec(old(row)@, enrichment, index.symbols@, index.deps@),
{
    let qn = match row.get("qualified_name") {
        Some(q) => Some(q.clone()),
        None => None,
    };
    match enrichment {
        Enrichment::Fields => {
            if let Some(q) = &qn {
                if let Some(sym) = index.by_qualified(q.as_str()) {
                    if sym.fields.len() > 0 {
                        let texts = texts_of_fields(&sym.fields);
                        row.set("fields", join_strings(&texts, ", "));
                        row.set("field_count", usize_to_string(sym.fields.len()));
                    }
                }
            }
        },
        Enrichment::Params => {
            if let Some(q) = &qn {
                if let Some(sym) = index.by_qualified(q.as_str()) {
                    if sym.params.len() > 0 {
                        let texts = param_texts(&sym.params);
                        row.set("params", join_strings(&texts, ", "));
                        row.set("param_count", usize_to_string(sym.params.len()));
                    }
                }
            }
        },
        Enrichment::Deps => {
            if let Some(q) = &qn {
                let deps = index.deps_of(q.as_str());
                if deps.len() > 0 {
                    let texts = texts_of_deps(&deps, false);
                    row.set("deps", join_strings(&texts, "; "));
                    row.set("dep_count", usize_to_string(deps.len()));
                }
            }
        },
        Enrichment::Refs => {
            let name = match row.get("name") {
                Some(n) => Some(n.clone()),
                None => None,
            };
            if let Some(n) = &name {
                let refs = index.refs_to(n.as_str());
                if refs.len() > 0 {
                    let texts = texts_of_deps(&refs, true);
                    row.set("refs", join_strings(&texts, "; "));
                    row.set("ref_count", usize_to_string(refs.len()));
                }
            }
        },
        Enrichment::Signature => {
            if let Some(q) = &qn {
                if let Some(sym) = index.by_qualified(q.as_str()) {
                    if let Some(sig) = &sym.signature {
                        row.set("signature", sig.clone());
                    }
                }
            }
        },
    }
}

// ---------------------------------------------------------------------------
// Stages
// ---------------------------------------------------------------------------

/// The listed columns of a row that it has, in column order.
pub open spec fn show_row(r: Map<Seq<char>, Seq<char>>, cols: Seq<Seq<char>>) -> Map<Seq<char>, Seq<char>>
    decreases cols.len(),
{
    if cols.len() == 0 {
        Map::empty()
    } else {
        let m = show_row(r, cols.drop_last());
        if r.contains_key(cols.last()) {
            m.insert(cols.last(), r[cols.last()])
        } else {
            m
        }
    }
}

/// Lexicographic comparison of strings by code point: -1, 0 or 1.
pub open spec fn lex_order(a: Seq<char>, b: Seq<char>) -> int
    decreases a.len(),
{
    if a.len() == 0 {
        if b.len() == 0 { 0 } else { -1 }
    } else if b.len() == 0 {
        1
    } else if (a[0] as u32) < (b[0] as u32) {
        -1
    } else if (a[0] as u32) > (b[0] as u32) {
        1
    } else {
        lex_order(a.drop_first(), b.drop_first())
    }
}

/// Sort-key comparison: numeric when both keys are integers, lexicographic
/// otherwise.
pub open spec fn key_order(a: Seq<char>, b: Seq<char>) -> int {
    match (parse_i64_spec(a), parse_i64_spec(b)) {
        (Some(x), Some(y)) => if x < y { -1 } else if x == y { 0 } else { 1 },
        _ => lex_order(a, b),
    }
}

/// A row's sort key: the field's value, empty when missing.
pub open spec fn sort_key(r: Map<Seq<char>, Seq<char>>, field: Seq<char>) -> Seq<char> {
    if r.contains_key(field) {
        r[field]
    } else {
        seq![]
    }
}

/// Must row `a` come after row `b`?
pub open spec fn row_after(a: Map<Seq<char>, Seq<char>>, b: Map<Seq<char>, Seq<char>>, field: Seq<char>, desc: bool) -> bool {
    if desc {
        key_order(sort_key(b, field), sort_key(a, field)) > 0
    } else {
        key_order(sort_key(a, field), sort_key(b, field)) > 0
    }
}

/// `x` inserted into `s` after every row it must not precede.
pub open spec fn insert_row(s: Seq<Map<Seq<char>, Seq<char>>>, x: Map<Seq<char>, Seq<char>>, field: Seq<char>, desc: bool) -> Seq<Map<Seq<char>, Seq<char>>>
    decreases s.len(),
{
    if s.len() == 0 {
        seq![x]
    } else if row_after(s.last(), x, field, desc) {
        insert_row(s.drop_last(), x, field, desc).push(s.last())
    } else {
        s.push(x)
    }
}

/// The rows stably sorted by the field.
pub open spec fn sort_rows(s: Seq<Map<Seq<char>, Seq<char>>>, field: Seq<char>, desc: bool) -> Seq<Map<Seq<char>, Seq<char>>>
    decreases s.len(),
{
    if s.len() == 0 {
        seq![]
    } else {
        insert_row(sort_rows(s.drop_last(), field, desc), s.last(), field, desc)
    }
}

/// No row comes after the one that follows it.
pub open spec fn rows_ordered(s: Seq<Map<Seq<char>, Seq<char>>>, field: Seq<char>, desc: bool) -> bool {
    forall|i: int| 0 <= i < s.len() - 1 ==> !#[trigger] row_after(s[i], s[i + 1], field, desc)
}

/// Swapping two strings negates their comparison.
pub proof fn lemma_lex_antisymmetric(a: Seq<char>, b: Seq<char>)
    ensures
        lex_order(a, b) == -lex_order(b, a),
    decreases a.len(),
{
    if a.len() > 0 && b.len() > 0 && !((a[0] as u32) < (b[0] as u32)) && !((a[0] as u32) > (b[0] as u32)) {
        lemma_lex_antisymmetric(a.drop_first(), b.drop_first());
    }
}

proof fn lemma_key_antisymmetric(a: Seq<char>, b: Seq<char>)
    ensures
        key_order(a, b) == -key_order(b, a),
{
    lemma_lex_antisymmetric(a, b);
}

proof fn lemma_insert_row(s: Seq<Map<Seq<char>, Seq<char>>>, x: Map<Seq<char>, Seq<char>>, field: Seq<char>, desc: bool)
    requires
        rows_ordered(s, field, desc),
    ensures
        insert_row(s, x, field, desc).len() == s.len() + 1,
        insert_row(s, x, field, desc).to_multiset() == s.to_multiset().insert(x),
        rows_ordered(insert_row(s, x, field, desc), field, desc),
        insert_row(s, x, field, desc).last() == x || (s.len() > 0 && insert_row(s, x, field, desc).last() == s.last()),
    decreases s.len(),
{
    broadcast use vstd::seq_lib::group_to_multiset_ensures;

    let r = insert_row(s, x, field, desc);
    if s.len() == 0 {
        assert(r =~= seq![x]);
        assert(Seq::<Map<Seq<char>, Seq<char>>>::empty().push(x) =~= seq![x]);
        assert(s =~= Seq::<Map<Seq<char>, Seq<char>>>::empty());
    } else if row_after(s.last(), x, field, desc) {
        let t = s.drop_last();
        assert(rows_ordered(t, field, desc)) by {
            assert forall|i: int| 0 <= i < t.len() - 1 implies !#[trigger] row_after(t[i], t[i + 1], field, desc) by {
                assert(!row_after(s[i], s[i + 1], field, desc));
            }
        }
        lemma_insert_row(t, x, field, desc);
        let u = insert_row(t, x, field, desc);
        assert(r == u.push(s.last()));
        assert(s =~= t.push(s.last()));
        lemma_key_antisymmetric(sort_key(s.last(), field), sort_key(x, field));
        assert(!row_after(u.last(), s.last(), field, desc)) by {
            if u.last() == x {
            } else {
                assert(u.last() == t.last());
                let k = s.len() - 2;
                assert(t.last() == s[k]);
                assert(!row_after(s[k], s[k + 1], field, desc));
                assert(s[k + 1] == s.last());
            }
        }
        assert forall|i: int| 0 <= i < r.len() - 1 implies !#[trigger] row_after(r[i], r[i + 1], field, desc) by {
            if i < u.len() - 1 {
                assert(r[i] == u[i] && r[i + 1] == u[i + 1]);
            } else {
                assert(r[i] == u.last() && r[i + 1] == s.last());
            }
        }
    } else {
        assert(r == s.push(x));
        assert forall|i: int| 0 <= i < r.len() - 1 implies !#[trigger] row_after(r[i], r[i + 1], field, desc) by {
            if i < s.len() - 1 {
                assert(r[i] == s[i] && r[i + 1] == s[i + 1]);
            } else {
                assert(r[i] == s.last() && r[i + 1] == x);
            }
        }
    }
}

/// Sorting rows reorders them (the same rows, as many times each) so that
/// no row comes after the one that follows it.
pub proof fn lemma_sort_rows_sorts(s: Seq<Map<Seq<char>, Seq<char>>>, field: Seq<char>, desc: bool)
    ensures
        sort_rows(s, field, desc).len() == s.len(),
        sort_rows(s, field, desc).to_multiset() == s.to_multiset(),
        rows_ordered(sort_rows(s, field, desc), field, desc),
    decreases s.len(),
{
    broadcast use vstd::seq_lib::group_to_multiset_ensures;

    if s.len() == 0 {
        assert(s =~= Seq::<Map<Seq<char>, Seq<char>>>::empty());
    } else {
        lemma_sort_rows_sorts(s.drop_last(), field, desc);
        lemma_insert_row(sort_rows(s.drop_last(), field, desc), s.last(), field, desc);
        assert(s =~= s.drop_last().push(s.last()));
    }
}

/// Characters with the same code are the same character.
proof fn lemma_char_code_injective(c: char, d: char)
    requires
        (c as u32) == (d as u32),
    ensures
        c == d,
{
    assert((c as int) <= 0x10FFFF);
    assert((c as u32) as int == c as int);
}

proof fn lemma_lex_zero(a: Seq<char>, b: Seq<char>)
    ensures
        lex_order(a, b) == 0 <==> a == b,
    decreases a.len(),
{
    if a.len() > 0 && b.len() > 0 && !((a[0] as u32) < (b[0] as u32)) && !((a[0] as u32) > (b[0] as u32)) {
        lemma_lex_zero(a.drop_first(), b.drop_first());
        lemma_char_code_injective(a[0], b[0]);
        if a.drop_first() == b.drop_first() {
            assert(a[0] == b[0]);
            assert(a =~= seq![a[0]] + a.drop_first());
            assert(b =~= seq![b[0]] + b.drop_first());
        }
        if a == b {
            assert(a.drop_first() == b.drop_first());
        }
    } else if a.len() > 0 && b.len() > 0 {
        if a == b {
            assert(a[0] == b[0]);
        }
    } else if a.len() == 0 && b.len() == 0 {
        assert(a =~= b);
    }
}

/// Keys that compare equal to a third compare equal to each other.
proof fn lemma_key_equal_trans(a: Seq<char>, b: Seq<char>, c: Seq<char>)
    requires
        key_order(a, c) == 0,
        key_order(b, c) == 0,
    ensures
        key_order(a, b) == 0,
{
    lemma_lex_zero(a, c);
    lemma_lex_zero(b, c);
    lemma_lex_zero(a, b);
    lemma_key_antisymmetric(b, c);
    lemma_key_antisymmetric(a, b);
}

/// The rows whose sort key compares equal to that of `y`.
pub open spec fn same_key_as(y: Map<Seq<char>, Seq<char>>, field: Seq<char>) -> spec_fn(Map<Seq<char>, Seq<char>>) -> bool {
    |r: Map<Seq<char>, Seq<char>>| key_order(sort_key(r, field), sort_key(y, field)) == 0
}

proof fn lemma_filter_push(
    s: Seq<Map<Seq<char>, Seq<char>>>,
    x: Map<Seq<char>, Seq<char>>,
    p: spec_fn(Map<Seq<char>, Seq<char>>) -> bool,
)
    ensures
        s.push(x).filter(p) == if p(x) { s.filter(p).push(x) } else { s.filter(p) },
{
    reveal(Seq::filter);
    assert(s.push(x).drop_last() =~= s);
}

proof fn lemma_insert_row_stable(
    t: Seq<Map<Seq<char>, Seq<char>>>,
    x: Map<Seq<char>, Seq<char>>,
    field: Seq<char>,
    desc: bool,
    y: Map<Seq<char>, Seq<char>>,
)
    ensures
        insert_row(t, x, field, desc).filter(same_key_as(y, field)) == t.push(x).filter(same_key_as(y, field)),
    decreases t.len(),
{
    let p = same_key_as(y, field);
    if t.len() == 0 {
        assert(insert_row(t, x, field, desc) =~= t.push(x));
    } else if row_after(t.last(), x, field, desc) {
        let t1 = t.drop_last();
        let l = t.last();
        lemma_insert_row_stable(t1, x, field, desc, y);
        let u = insert_row(t1, x, field, desc);
        assert(insert_row(t, x, field, desc) == u.push(l));
        assert(t =~= t1.push(l));
        lemma_filter_push(u, l, p);
        lemma_filter_push(t, x, p);
        lemma_filter_push(t1, l, p);
        lemma_filter_push(t1, x, p);
        if p(x) && p(l) {
            lemma_key_equal_trans(sort_key(l, field), sort_key(x, field), sort_key(y, field));
            lemma_key_antisymmetric(sort_key(l, field), sort_key(x, field));
            assert(false);
        }
    } else {
        assert(insert_row(t, x, field, desc) == t.push(x));
    }
}

/// Sorting is stable: the rows whose keys compare equal keep their order;
/// among the sorted rows, those equal in key to any row `y` are exactly
/// those of the input, in the input's order.
pub proof fn lemma_sort_rows_stable(
    s: Seq<Map<Seq<char>, Seq<char>>>,
    field: Seq<char>,
    desc: bool,
    y: Map<Seq<char>, Seq<char>>,
)
    ensures
        sort_rows(s, field, desc).filter(same_key_as(y, field)) == s.filter(same_key_as(y, field)),
    decreases s.len(),
{
    if s.len() == 0 {
        reveal(Seq::filter);
    } else {
        let s1 = s.drop_last();
        lemma_sort_rows_stable(s1, field, desc, y);
        lemma_insert_row_stable(sort_rows(s1, field, desc), s.last(), field, desc, y);
        let u = sort_rows(s1, field, desc);
        assert(s =~= s1.push(s.last()));
        lemma_filter_push(u, s.last(), same_key_as(y, field));
        lemma_filter_push(s1, s.last(), same_key_as(y, field));
    }
}

/// A `limit n` stage keeps the first `n` rows (all of them when there are
/// fewer).
pub proof fn lemma_limit_keeps_prefix(
    count: usize,
    rows: Seq<Map<Seq<char>, Seq<char>>>,
    ss: Seq<Symbol>,
    ds: Seq<Dependency>,
)
    ensures
        stage_rows(StageV::Limit { count }, rows, ss, ds).len() == if count <= rows.len() { count as nat } else { rows.len() },
        forall|i: int| 0 <= i < stage_rows(StageV::Limit { count }, rows, ss, ds).len()
            ==> #[trigger] stage_rows(StageV::Limit { count }, rows, ss, ds)[i] == rows[i],
{
}

/// A `where` stage keeps, in order, exactly the rows that satisfy it.
pub proof fn lemma_where_keeps_matching(
    conditions: Seq<Seq<ConditionV>>,
    rows: Seq<Map<Seq<char>, Seq<char>>>,
    ss: Seq<Symbol>,
    ds: Seq<Dependency>,
)
    ensures
        forall|i: int| 0 <= i < stage_rows(StageV::Where { conditions }, rows, ss, ds).len()
            ==> matches_dnf(#[trigger] stage_rows(StageV::Where { conditions }, rows, ss, ds)[i], conditions),
        forall|r: Map<Seq<char>, Seq<char>>|
            rows.contains(r) && matches_dnf(r, conditions) ==> #[trigger] stage_rows(StageV::Where { conditions }, rows, ss, ds).contains(r),
{
    let p = |r: Map<Seq<char>, Seq<char>>| matches_dnf(r, conditions);
    rows.filter_lemma(p);
    assert forall|r: Map<Seq<char>, Seq<char>>|
        rows.contains(r) && matches_dnf(r, conditions) implies #[trigger] stage_rows(StageV::Where { conditions }, rows, ss, ds).contains(r) by {
        let i = choose|i: int| 0 <= i < rows.len() && rows[i] == r;
        assert(p(rows[i]));
    }
}

/// The rows after a stage.
pub open spec fn stage_rows(
    st: StageV,
    rows: Seq<Map<Seq<char>, Seq<char>>>,
    ss: Seq<Symbol>,
    ds: Seq<Dependency>,
) -> Seq<Map<Seq<char>, Seq<char>>> {
    match st {
        StageV::With { enrichments } => enriched_rows(rows, enrichments, ss, ds),
        StageV::Show { columns } => shown_rows(rows, columns),
        StageV::Where { conditions } => filter_spec(rows, conditions),
        StageV::Sort { field, descending } => sort_rows(rows, field, descending),
        StageV::Limit { count } => if count <= rows.len() {
            rows.take(count as int)
        } else {
            rows
        },
    }
}

pub open spec fn enriched_rows(
    rows: Seq<Map<Seq<char>, Seq<char>>>,
    es: Seq<Enrichment>,
    ss: Seq<Symbol>,
    ds: Seq<Dependency>,
) -> Seq<Map<Seq<char>, Seq<char>>> {
    rows.map_values(|r: Map<Seq<char>, Seq<char>>| enrich_all(r, es, ss, ds))
}

pub open spec fn shown_rows(rows: Seq<Map<Seq<char>, Seq<char>>>, cols: Seq<Seq<char>>) -> Seq<Map<Seq<char>, Seq<char>>> {
    rows.map_values(|r: Map<Seq<char>, Seq<char>>| show_row(r, cols))
}

/// The rows after each stage in turn.
pub open spec fn pipeline(
    stages: Seq<StageV>,
    rows: Seq<Map<Seq<char>, Seq<char>>>,
    ss: Seq<Symbol>,
    ds: Seq<Dependency>,
) -> Seq<Map<Seq<char>, Seq<char>>>
    decreases stages.len(),
{
    if stages.len() == 0 {
        rows
    } else {
        stage_rows(stages.last(), pipeline(stages.drop_last(), rows, ss, ds), ss, ds)
    }
}

pub fn lex_compare(a: &Vec<char>, b: &Vec<char>) -> (r: i8)
    ensures
        r as int == lex_order(a@, b@),
{
    let mut i: usize = 0;
    assert(a@.skip(0) =~= a@);
    assert(b@.skip(0) =~= b@);
    while i < a.len() && i < b.len()
        invariant
            i <= a.len(),
            i <= b.len(),
            lex_order(a@, b@) == lex_order(a@.skip(i as int), b@.skip(i as int)),
        decreases a.len() - i,
    {
        assert(a@.skip(i as int)[0] == a@[i as int]);
        assert(b@.skip(i as int)[0] == b@[i as int]);
        if (a[i] as u32) < (b[i] as u32) {
            return -1;
        }
        if (a[i] as u32) > (b[i] as u32) {
            return 1;
        }
        assert(a@.skip(i as int).drop_first() =~= a@.skip(i + 1));
        assert(b@.skip(i as int).drop_first() =~= b@.skip(i + 1));
        i += 1;
    }
    if i == a.len() {
        if i == b.len() {
            0
        } else {
            -1
        }
    } else {
        1
    }
}

fn key_compare(a: &str, b: &str) -> (r: i8)
    ensures
        r as int == key_order(a@, b@),
{
    match (parse_i64(a), parse_i64(b)) {
        (Some(x), Some(y)) => if x < y {
            -1
        } else if x == y {
            0
        } else {
            1
        },
        _ => {
            let va = crate::text::chars_of(a);
            let vb = crate::text::chars_of(b);
            lex_compare(&va, &vb)
        },
    }
}

fn key_of<'a>(row: &'a Row, field: &str) -> (r: &'a str)
    ensures
        r@ == sort_key(row@, field@),
{
    match row.get(field) {
        Some(v) => v.as_str(),
        None => {
            proof {
                reveal_strlit("");
            }
            ""
        },
    }
}

fn after(a: &Row, b: &Row, field: &str, desc: bool) -> (r: bool)
    ensures
        r == row_after(a@, b@, field@, desc),
{
    let ka = key_of(a, field);
    let kb = key_of(b, field);
    if desc {
        key_compare(kb, ka) > 0
    } else {
        key_compare(ka, kb) > 0
    }
}

fn sort_stage(rows: Vec<Row>, field: &str, desc: bool) -> (r: Vec<Row>)
    ensures
        rows_view(r@) == sort_rows(rows_view(rows@), field@, desc),
{
    let ghost rv = rows_view(rows@);
    let mut rows = rows;
    let mut out: Vec<Row> = Vec::new();
    let n = rows.len();
    let mut i: usize = 0;
    assert(rv.skip(0) =~= rv);
    assert(rows_view(out@) =~= sort_rows(rv.take(0), field@, desc));
    while i < n
        invariant
            i <= n,
            n == rv.len(),
            rows.len() == n - i,
            rows_view(rows@) == rv.skip(i as int),
            rows_view(out@) == sort_rows(rv.take(i as int), field@, desc),
        decreases n - i,
    {
        let ghost rs = rows@;
        let x = rows.remove(0);
        proof {
            assert(rows@ =~= rs.skip(1));
            assert(rows_view(rs) == rv.skip(i as int));
            assert(rows_view(rows@) =~= rows_view(rs).skip(1));
            assert(rv.skip(i as int)[0] == rv[i as int]);
            assert(rows_view(rs)[0] == x@);
            assert(rows_view(rows@) =~= rv.skip(i + 1));
            assert(rv.take(i + 1).drop_last() =~= rv.take(i as int));
            assert(rv.take(i + 1).last() == rv[i as int]);
        }
        let ghost o = rows_view(out@);
        let mut j = out.len();
        assert(o.take(j as int) =~= o);
        assert(o.skip(j as int) =~= Seq::<Map<Seq<char>, Seq<char>>>::empty());
        while j > 0 && after(&out[j - 1], &x, field, desc)
            invariant
                j <= out.len(),
                o == rows_view(out@),
                insert_row(o, x@, field@, desc) == insert_row(o.take(j as int), x@, field@, desc) + o.skip(j as int),
            decreases j,
        {
            assert(o.take(j as int).last() == o[j - 1]);
            assert(o.take(j as int).drop_last() =~= o.take(j - 1));
            assert(o.skip(j - 1) =~= seq![o[j - 1]] + o.skip(j as int));
            assert(insert_row(o.take(j - 1), x@, field@, desc).push(o[j - 1]) + o.skip(j as int) =~= insert_row(o.take(j - 1), x@, field@, desc) + o.skip(j - 1));
            j -= 1;
        }
        proof {
            if j > 0 {
                assert(o.take(j as int).last() == o[j - 1]);
            }
            assert(insert_row(o.take(j as int), x@, field@, desc) == o.take(j as int).push(x@));
        }
        out.insert(j, x);
        assert(rows_view(out@) =~= o.take(j as int).push(x@) + o.skip(j as int));
        i += 1;
    }
    assert(rv.take(n as int) =~= rv);
    out
}

/// Apply a pipeline stage to rows.
fn apply_stage(stage: &Stage, rows: Vec<Row>, index: &Index) -> (r: Vec<Row>)
    ensures
        rows_view(r@) == stage_rows(stage.view(), rows_view(rows@), index.symbols@, index.deps@),
{
    match stage {
        Stage::With { enrichments } => {
            let ghost rv = rows_view(rows@);
            let ghost es = enrichments@;
            let mut rows = rows;
            let mut out: Vec<Row> = Vec::new();
            let n = rows.len();
            let mut i: usize = 0;
            assert(rv.skip(0) =~= rv);
            while i < n
                invariant
                    i <= n,
                    n == rv.len(),
                    es == enrichments@,
                    rows.len() == n - i,
                    rows_view(rows@) == rv.skip(i as int),
                    rows_view(out@) == enriched_rows(rv.take(i as int), es, index.symbols@, index.deps@),
                decreases n - i,
            {
                let ghost rs = rows@;
                let mut row = rows.remove(0);
                proof {
                    assert(rows@ =~= rs.skip(1));
                    assert(rows_view(rs) == rv.skip(i as int));
                    assert(rows_view(rows@) =~= rows_view(rs).skip(1));
                    assert(rv.skip(i as int)[0] == rv[i as int]);
                    assert(rows_view(rs)[0] == row@);
                    assert(rows_view(rows@) =~= rv.skip(i + 1));
                }
                let ghost r0 = row@;
                let mut k: usize = 0;
                assert(es.take(0) =~= Seq::<Enrichment>::empty());
                while k < enrichments.len()
                    invariant
                        k <= enrichments.len(),
                        es == enrichments@,
                        row@ == enrich_all(r0, es.take(k as int), index.symbols@, index.deps@),
                    decreases enrichments.len() - k,
                {
                    enrich_row(&mut row, enrichments[k], index);
                    assert(es.take(k + 1).drop_last() =~= es.take(k as int));
                    assert(es.take(k + 1).last() == es[k as int]);
                    k += 1;
                }
                assert(es.take(enrichments.len() as int) =~= es);
                let ghost before = rows_view(out@);
                out.push(row);
                assert(rows_view(out@) =~= before.push(enrich_all(rv[i as int], es, index.symbols@, index.deps@)));
                assert(enriched_rows(rv.take(i + 1), es, index.symbols@, index.deps@) =~= enriched_rows(rv.take(i as int), es, index.symbols@, index.deps@).push(enrich_all(rv[i as int], es, index.symbols@, index.deps@)));
                i += 1;
            }
            assert(rv.take(n as int) =~= rv);
            out
        },
        Stage::Show { columns } => {
            let ghost cols = crate::query::ast::strings_view(columns@);
            let mut out: Vec<Row> = Vec::new();
            let mut i: usize = 0;
            while i < rows.len()
                invariant
                    i <= rows.len(),
                    cols == crate::query::ast::strings_view(columns@),
                    rows_view(out@) == shown_rows(rows_view(rows@).take(i as int), cols),
                decreases rows.len() - i,
            {
                let mut new_row = Row::new();
                let mut k: usize = 0;
                assert(cols.take(0) =~= Seq::<Seq<char>>::empty());
                while k < columns.len()
                    invariant
                        k <= columns.len(),
                        i < rows.len(),
                        cols == crate::query::ast::strings_view(columns@),
                        new_row@ == show_row(rows@[i as int]@, cols.take(k as int)),
                    decreases columns.len() - k,
                {
                    assert(cols.take(k + 1).drop_last() =~= cols.take(k as int));
                    assert(cols.take(k + 1).last() == columns@[k as int]@);
                    match rows[i].get(columns[k].as_str()) {
                        Some(val) => new_row.set(columns[k].as_str(), val.clone()),
                        None => {},
                    }
                    k += 1;
                }
                assert(cols.take(columns.len() as int) =~= cols);
                let ghost before = rows_view(out@);
                out.push(new_row);
                assert(rows_view(out@) =~= before.push(show_row(rows@[i as int]@, cols)));
                assert(shown_rows(rows_view(rows@).take(i + 1), cols) =~= shown_rows(rows_view(rows@).take(i as int), cols).push(show_row(rows@[i as int]@, cols)));
                i += 1;
            }
            assert(rows_view(rows@).take(rows.len() as int) =~= rows_view(rows@));
            out
        },
        Stage::Where { conditions } => filter_rows(rows, conditions),
        Stage::Sort { field, descending } => sort_stage(rows, field.as_str(), *descending),
        Stage::Limit { count } => {
            let ghost before = rows@;
            let mut rows = rows;
            rows.truncate(*count);
            assert(*count <= before.len() ==> rows_view(rows@) =~= rows_view(before).take(*count as int));
            rows
        },
    }
}

// ---------------------------------------------------------------------------
// Output
// ---------------------------------------------------------------------------

/// The columns of the first `show` stage, if any.
pub open spec fn first_show(stages: Seq<StageV>) -> Option<Seq<Seq<char>>>
    decreases stages.len(),
{
    if stages.len() == 0 {
        None
    } else {
        match stages[0] {
            StageV::Show { columns } => Some(columns),
            _ => first_show(stages.drop_first()),
        }
    }
}

/// Some row has the column.
pub open spec fn any_has(rows: Seq<Map<Seq<char>, Seq<char>>>, c: Seq<char>) -> bool {
    exists|i: int| 0 <= i < rows.len() && (#[trigger] rows[i]).contains_key(c)
}

pub open spec fn opt_col(rows: Seq<Map<Seq<char>, Seq<char>>>, c: Seq<char>) -> Seq<Seq<char>> {
    if any_has(rows, c) {
        seq![c]
    } else {
        seq![]
    }
}

/// The columns to display: those of an explicit `show` stage; for dependency
/// rows `dep_kind, from, to, file, line`; for symbol rows `kind,
/// display_name, file, line` and the enrichment columns some row has.
pub open spec fn columns_spec(rows: Seq<Map<Seq<char>, Seq<char>>>, stages: Seq<StageV>) -> Seq<Seq<char>> {
    match first_show(stages) {
        Some(c) => c,
        None => {
            let s = rows[0];
            if s.contains_key("from"@) && s.contains_key("to"@) {
                seq!["dep_kind"@, "from"@, "to"@, "file"@, "line"@]
            } else {
                seq!["kind"@, "display_name"@, "file"@, "line"@] + opt_col(rows, "fields"@) + opt_col(
                    rows,
                    "methods"@,
                ) + opt_col(rows, "params"@) + opt_col(rows, "signature"@) + opt_col(rows, "deps"@)
                    + opt_col(rows, "refs"@)
            }
        },
    }
}

/// The value shown in a cell: the field's value, empty when missing.
pub open spec fn cell(r: Map<Seq<char>, Seq<char>>, c: Seq<char>) -> Seq<char> {
    if r.contains_key(c) {
        r[c]
    } else {
        seq![]
    }
}

/// The `file` values of the rows that have one, in order.
pub open spec fn file_values(rows: Seq<Map<Seq<char>, Seq<char>>>) -> Seq<Seq<char>>
    decreases rows.len(),
{
    if rows.len() == 0 {
        seq![]
    } else if rows.last().contains_key("file"@) {
        file_values(rows.drop_last()).push(rows.last()["file"@])
    } else {
        file_values(rows.drop_last())
    }
}

/// A row as displayed: its file shortened by the alias, if any.
pub open spec fn display_row(r: Map<Seq<char>, Seq<char>>, a: Option<(Seq<char>, Seq<char>)>) -> Map<Seq<char>, Seq<char>> {
    match a {
        Some((p, m)) => if r.contains_key("file"@) {
            r.insert("file"@, shorten_spec(p, m, r["file"@]))
        } else {
            r
        },
        None => r,
    }
}

pub open spec fn display_rows(rows: Seq<Map<Seq<char>, Seq<char>>>, a: Option<(Seq<char>, Seq<char>)>) -> Seq<Map<Seq<char>, Seq<char>>> {
    rows.map_values(|r: Map<Seq<char>, Seq<char>>| display_row(r, a))
}

/// Width of a column: the widest cell or the header, in bytes.
pub open spec fn col_width(rows: Seq<Map<Seq<char>, Seq<char>>>, c: Seq<char>) -> nat
    decreases rows.len(),
{
    if rows.len() == 0 {
        byte_len(c) as nat
    } else {
        let w = col_width(rows.drop_last(), c);
        let l = byte_len(cell(rows.last(), c)) as nat;
        if l > w {
            l
        } else {
            w
        }
    }
}

/// The padded cells of a row.
pub open spec fn padded_cells(r: Map<Seq<char>, Seq<char>>, cols: Seq<Seq<char>>, widths: Seq<nat>) -> Seq<Seq<char>> {
    Seq::new(cols.len(), |i: int| pad_right(cell(r, cols[i]), widths[i]))
}

pub open spec fn row_line(r: Map<Seq<char>, Seq<char>>, cols: Seq<Seq<char>>, widths: Seq<nat>) -> Seq<char> {
    trim_end(join(padded_cells(r, cols, widths), "  "@))
}

/// Rows as aligned text columns, under an alias header when the files share
/// a long directory prefix.
pub open spec fn format_text_spec(rows: Seq<Map<Seq<char>, Seq<char>>>, stages: Seq<StageV>) -> Seq<char> {
    if rows.len() == 0 {
        "No results."@
    } else {
        let cols = columns_spec(rows, stages);
        if cols.len() == 0 {
            "No results."@
        } else {
            let a = if cols.contains("file"@) { alias_spec(file_values(rows)) } else { None };
            let drows = display_rows(rows, a);
            let widths = cols.map_values(|c: Seq<char>| col_width(drows, c));
            join(
                alias_header(a) + drows.map_values(|r: Map<Seq<char>, Seq<char>>| row_line(r, cols, widths)),
                "\n"@,
            )
        }
    }
}

/// The JSON text `serde_json::to_string_pretty` gives for the rows as an
/// array of objects with string values.
pub uninterp spec fn rows_json(rows: Seq<Map<Seq<char>, Seq<char>>>) -> Seq<char>;

/// Formatted output of a query's rows.
pub open spec fn format_rows_spec(rows: Seq<Map<Seq<char>, Seq<char>>>, stages: Seq<StageV>, format: Seq<char>) -> Seq<char> {
    if rows.len() == 0 {
        "No results."@
    } else if format == "json"@ {
        rows_json(rows)
    } else {
        format_text_spec(rows, stages)
    }
}

/// `serde_json::to_string_pretty` on the rows as JSON objects of strings; the
/// text depends only on each row's fields and values (the objects are
/// `serde_json::Map`s, which keep their keys sorted).
#[verifier::external_body]
fn rows_to_json(rows: &Vec<Row>) -> (r: String)
    ensures
        r@ == rows_json(rows_view(rows@)),
{
    let values: Vec<serde_json::Value> = rows.iter().map(|row| {
        serde_json::Value::Object(
            row.fields.iter().map(|(k, v)| (k.clone(), serde_json::Value::String(v.clone()))).collect(),
        )
    }).collect();
    serde_json::to_string_pretty(&values).unwrap_or_else(|_| "[]".to_string())
}

fn find_show(stages: &Vec<Stage>) -> (r: Option<&Vec<String>>)
    ensures
        match r {
            Some(c) => first_show(crate::query::ast::stages_view(stages@)) == Some(
                crate::query::ast::strings_view(c@),
            ),
            None => first_show(crate::query::ast::stages_view(stages@)) is None,
        },
{
    let ghost sv = crate::query::ast::stages_view(stages@);
    let mut i: usize = 0;
    assert(sv.skip(0) =~= sv);
    while i < stages.len()
        invariant
            i <= stages.len(),
            sv == crate::query::ast::stages_view(stages@),
            first_show(sv) == first_show(sv.skip(i as int)),
        decreases stages.len() - i,
    {
        assert(sv.skip(i as int)[0] == stages@[i as int].view());
        match &stages[i] {
            Stage::Show { columns } => {
                return Some(columns);
            },
            _ => {},
        }
        assert(sv.skip(i as int).drop_first() =~= sv.skip(i + 1));
        i += 1;
    }
    assert(sv.skip(i as int) =~= Seq::<StageV>::empty());
    None
}

fn has_col(rows: &Vec<Row>, c: &str) -> (r: bool)
    ensures
        r == any_has(rows_view(rows@), c@),
{
    let ghost rv = rows_view(rows@);
    let mut i: usize = 0;
    while i < rows.len()
        invariant
            i <= rows.len(),
            rv == rows_view(rows@),
            forall|j: int| 0 <= j < i ==> !(#[trigger] rv[j]).contains_key(c@),
        decreases rows.len() - i,
    {
        assert(rv[i as int] == rows@[i as int]@);
        match rows[i].get(c) {
            Some(_) => {
                return true;
            },
            None => {},
        }
        i += 1;
    }
    false
}

fn push_opt_col(cols: &mut Vec<String>, rows: &Vec<Row>, c: &str)
    ensures
        views(final(cols)@) == views(old(cols)@) + opt_col(rows_view(rows@), c@),
{
    if has_col(rows, c) {
        let ghost before = views(cols@);
        cols.push(owned(c));
        assert(views(cols@) =~= before + seq![c@]);
    } else {
        assert(views(cols@) =~= views(cols@) + Seq::<Seq<char>>::empty());
    }
}

fn strs_to_strings(v: &Vec<&str>) -> (r: Vec<String>)
    ensures
        views(r@) == v@.map_values(|s: &str| s@),
{
    let mut out: Vec<String> = Vec::new();
    let mut i: usize = 0;
    while i < v.len()
        invariant
            i <= v.len(),
            views(out@) == v@.take(i as int).map_values(|s: &str| s@),
        decreases v.len() - i,
    {
        let ghost before = views(out@);
        out.push(owned(v[i]));
        assert(views(out@) =~= before.push(v@[i as int]@));
        assert(v@.take(i + 1).map_values(|s: &str| s@) =~= v@.take(i as int).map_values(|s: &str| s@).push(v@[i as int]@));
        i += 1;
    }
    assert(v@.take(v.len() as int) =~= v@);
    out
}

/// Determine which columns to display based on the query and row data.
fn determine_columns(rows: &Vec<Row>, query: &Query) -> (r: Vec<String>)
    requires
        rows@.len() > 0,
    ensures
        views(r@) == columns_spec(rows_view(rows@), crate::query::ast::stages_view(query.stages@)),
{
    if let Some(c) = find_show(&query.stages) {
        let mut out: Vec<String> = Vec::new();
        let mut i: usize = 0;
        while i < c.len()
            invariant
                i <= c.len(),
                views(out@) == views(c@).take(i as int),
            decreases c.len() - i,
        {
            let ghost before = views(out@);
            out.push(c[i].clone());
            assert(views(out@) =~= before.push(c@[i as int]@));
            assert(views(c@).take(i + 1) =~= views(c@).take(i as int).push(c@[i as int]@));
            i += 1;
        }
        assert(views(c@).take(c.len() as int) =~= views(c@));
        assert(crate::query::ast::strings_view(c@) =~= views(c@));
        return out;
    }
    let sample = &rows[0];
    assert(rows_view(rows@)[0] == sample@);
    let is_dep_row = sample.get("from").is_some() && sample.get("to").is_some();
    if is_dep_row {
        let v = vec!["dep_kind", "from", "to", "file", "line"];
        let r = strs_to_strings(&v);
        assert(views(r@) =~= seq!["dep_kind"@, "from"@, "to"@, "file"@, "line"@]);
        r
    } else {
        let v = vec!["kind", "display_name", "file", "line"];
        let mut cols = strs_to_strings(&v);
        assert(views(cols@) =~= seq!["kind"@, "display_name"@, "file"@, "line"@]);
        push_opt_col(&mut cols, rows, "fields");
        push_opt_col(&mut cols, rows, "methods");
        push_opt_col(&mut cols, rows, "params");
        push_opt_col(&mut cols, rows, "signature");
        push_opt_col(&mut cols, rows, "deps");
        push_opt_col(&mut cols, rows, "refs");
        cols
    }
}

fn contains_str(v: &Vec<String>, s: &str) -> (r: bool)
    ensures
        r == views(v@).contains(s@),
{
    let mut i: usize = 0;
    while i < v.len()
        invariant
            i <= v.len(),
            forall|j: int| 0 <= j < i ==> v@[j]@ != s@,
        decreases v.len() - i,
    {
        if str_eq(v[i].as_str(), s) {
            assert(views(v@)[i as int] == s@);
            return true;
        }
        i += 1;
    }
    assert(!views(v@).contains(s@)) by {
        if views(v@).contains(s@) {
            let j = choose|j: int| 0 <= j < views(v@).len() && views(v@)[j] == s@;
            assert(v@[j]@ == s@);
        }
    }
    false
}

fn cell_of<'a>(row: &'a Row, c: &str) -> (r: &'a str)
    ensures
        r@ == cell(row@, c@),
{
    match row.get(c) {
        Some(v) => v.as_str(),
        None => {
            proof {
                reveal_strlit("");
            }
            ""
        },
    }
}

fn no_results() -> (r: String)
    ensures
        r@ == "No results."@,
{
    owned("No results.")
}

/// Format rows as aligned text columns.
#[verifier::rlimit(40)]
fn format_text(rows: &Vec<Row>, query: &Query) -> (r: String)
    ensures
        r@ == format_text_spec(rows_view(rows@), crate::query::ast::stages_view(query.stages@)),
{
    let ghost rv = rows_view(rows@);
    let ghost st = crate::query::ast::stages_view(query.stages@);
    if rows.len() == 0 {
        return no_results();
    }
    let columns = determine_columns(rows, query);
    let ghost cols = views(columns@);
    if columns.len() == 0 {
        return no_results();
    }
    // The alias for the file column.
    let has_file = contains_str(&columns, "file");
    let alias = if has_file {
        let mut paths: Vec<&str> = Vec::new();
        let mut i: usize = 0;
        assert(rv.take(0) =~= Seq::<Map<Seq<char>, Seq<char>>>::empty());
        while i < rows.len()
            invariant
                i <= rows.len(),
                rv == rows_view(rows@),
                strs(paths@) == file_values(rv.take(i as int)),
            decreases rows.len() - i,
        {
            assert(rv.take(i + 1).drop_last() =~= rv.take(i as int));
            assert(rv.take(i + 1).last() == rows@[i as int]@);
            match rows[i].get("file") {
                Some(f) => {
                    let ghost before = strs(paths@);
                    paths.push(f.as_str());
                    assert(strs(paths@) =~= before.push(f@));
                },
                None => {},
            }
            i += 1;
        }
        assert(rv.take(rows.len() as int) =~= rv);
        compute_path_alias(paths.as_slice())
    } else {
        None
    };
    let ghost a = if cols.contains("file"@) { alias_spec(file_values(rv)) } else { None };
    assert(match alias {
        Some(x) => a == Some((x.prefix@, x.marker@)),
        None => a is None,
    });
    // Rows as displayed.
    let mut drows: Vec<Row> = Vec::new();
    let mut i: usize = 0;
    while i < rows.len()
        invariant
            i <= rows.len(),
            rv == rows_view(rows@),
            match alias {
                Some(x) => a == Some((x.prefix@, x.marker@)),
                None => a is None,
            },
            rows_view(drows@) == display_rows(rv.take(i as int), a),
        decreases rows.len() - i,
    {
        let mut d = rows[i].duplicate();
        match &alias {
            Some(x) => {
                match rows[i].get("file") {
                    Some(f) => d.set("file", x.shorten(f.as_str())),
                    None => {},
                }
            },
            None => {},
        }
        let ghost before = rows_view(drows@);
        drows.push(d);
        assert(rows_view(drows@) =~= before.push(display_row(rv[i as int], a)));
        assert(display_rows(rv.take(i + 1), a) =~= display_rows(rv.take(i as int), a).push(display_row(rv[i as int], a)));
        i += 1;
    }
    assert(rv.take(rows.len() as int) =~= rv);
    let ghost dv = rows_view(drows@);
    // Column widths.
    let mut widths: Vec<usize> = Vec::new();
    let mut k: usize = 0;
    while k < columns.len()
        invariant
            k <= columns.len(),
            cols == views(columns@),
            dv == rows_view(drows@),
            widths@.len() == k,
            forall|j: int| 0 <= j < k ==> #[trigger] widths@[j] as nat == col_width(dv, cols[j]),
        decreases columns.len() - k,
    {
        let mut w: usize = byte_len_exec(columns[k].as_str());
        let mut i: usize = 0;
        assert(dv.take(0) =~= Seq::<Map<Seq<char>, Seq<char>>>::empty());
        while i < drows.len()
            invariant
                i <= drows.len(),
                k < columns.len(),
                cols == views(columns@),
                dv == rows_view(drows@),
                w as nat == col_width(dv.take(i as int), cols[k as int]),
            decreases drows.len() - i,
        {
            assert(dv.take(i + 1).drop_last() =~= dv.take(i as int));
            assert(dv.take(i + 1).last() == drows@[i as int]@);
            let l = byte_len_exec(cell_of(&drows[i], columns[k].as_str()));
            if l > w {
                w = l;
            }
            i += 1;
        }
        assert(dv.take(drows.len() as int) =~= dv);
        widths.push(w);
        k += 1;
    }
    let ghost wv = cols.map_values(|c: Seq<char>| col_width(dv, c));
    assert forall|j: int| 0 <= j < cols.len() implies wv[j] == widths@[j] as nat by {}
    // Lines.
    let mut lines: Vec<String> = Vec::new();
    match &alias {
        Some(x) => {
            lines.push(x.header());
            lines.push(String::new());
        },
        None => {},
    }
    assert(views(lines@) =~= alias_header(a));
    let ghost hl = alias_header(a);
    let ghost f = |r: Map<Seq<char>, Seq<char>>| row_line(r, cols, wv);
    let mut i: usize = 0;
    while i < drows.len()
        invariant
            i <= drows.len(),
            cols == views(columns@),
            dv == rows_view(drows@),
            widths@.len() == cols.len(),
            wv == cols.map_values(|c: Seq<char>| col_width(dv, c)),
            forall|j: int| 0 <= j < cols.len() ==> wv[j] == #[trigger] widths@[j] as nat,
            f == (|r: Map<Seq<char>, Seq<char>>| row_line(r, cols, wv)),
            views(lines@) == hl + dv.take(i as int).map_values(f),
        decreases drows.len() - i,
    {
        let ghost cells = padded_cells(dv[i as int], cols, wv);
        let mut parts: Vec<String> = Vec::new();
        let mut k: usize = 0;
        while k < columns.len()
            invariant
                k <= columns.len(),
                i < drows.len(),
                cols == views(columns@),
                dv == rows_view(drows@),
                widths@.len() == cols.len(),
                forall|j: int| 0 <= j < cols.len() ==> wv[j] == #[trigger] widths@[j] as nat,
                cells == padded_cells(dv[i as int], cols, wv),
                views(parts@) == cells.take(k as int),
            decreases columns.len() - k,
        {
            let v = cell_of(&drows[i], columns[k].as_str());
            let p = crate::text::pad(v, widths[k]);
            assert(dv[i as int] == drows@[i as int]@);
            assert(p@ == cells[k as int]);
            let ghost before = views(parts@);
            parts.push(p);
            assert(views(parts@) =~= before.push(cells[k as int]));
            assert(cells.take(k + 1) =~= cells.take(k as int).push(cells[k as int]));
            k += 1;
        }
        assert(cells.take(columns.len() as int) =~= cells);
        let joined = join_strings(&parts, "  ");
        let line = crate::text::trim_end_str(joined.as_str());
        let ghost before = views(lines@);
        lines.push(line);
        assert(views(lines@) =~= before.push(f(dv[i as int])));
        assert(dv.take(i + 1).map_values(f) =~= dv.take(i as int).map_values(f).push(f(dv[i as int])));
        assert(hl + dv.take(i + 1).map_values(f) =~= (hl + dv.take(i as int).map_values(f)).push(f(dv[i as int])));
        i += 1;
    }
    assert(dv.take(drows.len() as int) =~= dv);
    join_strings(&lines, "\n")
}

/// Format rows into output text: `No results.` when there are none, JSON
/// for the `json` format, aligned columns otherwise.
fn format_rows(rows: &Vec<Row>, query: &Query, format: &str) -> (r: String)
    ensures
        r@ == format_rows_spec(rows_view(rows@), crate::query::ast::stages_view(query.stages@), format@),
{
    if rows.len() == 0 {
        return no_results();
    }
    if str_eq(format, "json") {
        rows_to_json(rows)
    } else {
        format_text(rows, query)
    }
}

// ---------------------------------------------------------------------------
// Queries and batches
// ---------------------------------------------------------------------------

/// The rows a query gives: its source's rows through its stages.
pub open spec fn query_rows(q: QueryV, ss: Seq<Symbol>, ds: Seq<Dependency>) -> Seq<Map<Seq<char>, Seq<char>>> {
    pipeline(q.stages, source_rows(q.source, ss, ds), ss, ds)
}

/// A `sort` stage at the end of a query reorders the query's rows and does
/// nothing else: the sorted rows are the same rows, each as often; no row
/// comes after the one that follows it; and the rows whose keys compare
/// equal to any row `y` keep the order the query gave them.
pub proof fn lemma_query_sort_stage(
    q: QueryV,
    field: Seq<char>,
    descending: bool,
    ss: Seq<Symbol>,
    ds: Seq<Dependency>,
    y: Map<Seq<char>, Seq<char>>,
)
    ensures
        query_rows((QueryV { source: q.source, stages: q.stages.push(StageV::Sort { field, descending }) }), ss, ds).to_multiset()
            == query_rows(q, ss, ds).to_multiset(),
        rows_ordered(query_rows((QueryV { source: q.source, stages: q.stages.push(StageV::Sort { field, descending }) }), ss, ds), field, descending),
        query_rows((QueryV { source: q.source, stages: q.stages.push(StageV::Sort { field, descending }) }), ss, ds).filter(same_key_as(y, field))
            == query_rows(q, ss, ds).filter(same_key_as(y, field)),
{
    let st = q.stages.push(StageV::Sort { field, descending });
    assert(st.drop_last() =~= q.stages);
    let before = query_rows(q, ss, ds);
    lemma_sort_rows_sorts(before, field, descending);
    lemma_sort_rows_stable(before, field, descending, y);
}

/// In rows ordered by a field, neighbouring keys compare as integers when
/// both are integers, and as strings otherwise: ascending, or descending
/// when asked (a missing field reads as the empty string).
pub proof fn lemma_ordered_keys(rows: Seq<Map<Seq<char>, Seq<char>>>, field: Seq<char>, descending: bool, i: int)
    requires
        rows_ordered(rows, field, descending),
        0 <= i < rows.len() - 1,
    ensures
        parse_i64_spec(sort_key(rows[i], field)) is Some && parse_i64_spec(sort_key(rows[i + 1], field)) is Some
            ==> if descending {
            parse_i64_spec(sort_key(rows[i], field))->Some_0 >= parse_i64_spec(sort_key(rows[i + 1], field))->Some_0
        } else {
            parse_i64_spec(sort_key(rows[i], field))->Some_0 <= parse_i64_spec(sort_key(rows[i + 1], field))->Some_0
        },
        (parse_i64_spec(sort_key(rows[i], field)) is None || parse_i64_spec(sort_key(rows[i + 1], field)) is None)
            ==> if descending {
            lex_order(sort_key(rows[i], field), sort_key(rows[i + 1], field)) >= 0
        } else {
            lex_order(sort_key(rows[i], field), sort_key(rows[i + 1], field)) <= 0
        },
{
    let x = sort_key(rows[i], field);
    let y = sort_key(rows[i + 1], field);
    assert(!row_after(rows[i], rows[i + 1], field, descending));
    lemma_lex_antisymmetric(x, y);
    if descending {
        assert(key_order(y, x) <= 0);
    } else {
        assert(key_order(x, y) <= 0);
    }
    match (parse_i64_spec(x), parse_i64_spec(y)) {
        (Some(a), Some(b)) => {
            if descending {
                assert(key_order(y, x) == if b < a { -1int } else if b == a { 0int } else { 1int });
            } else {
                assert(key_order(x, y) == if a < b { -1int } else if a == b { 0int } else { 1int });
            }
            assert(if descending { a >= b } else { a <= b });
        },
        _ => {},
    }
}

/// Execute a single query against the index.
pub fn execute_query(query: &Query, index: &Index) -> (r: Result<Vec<Row>, String>)
    ensures
        r matches Ok(rows) && rows_view(rows@) == query_rows(query.view(), index.symbols@, index.deps@),
{
    let mut rows = resolve_source(&query.source, index);
    let ghost st = crate::query::ast::stages_view(query.stages@);
    let mut i: usize = 0;
    assert(st.take(0) =~= Seq::<StageV>::empty());
    while i < query.stages.len()
        invariant
            i <= query.stages.len(),
            st == crate::query::ast::stages_view(query.stages@),
            rows_view(rows@) == pipeline(st.take(i as int), source_rows(query.source.view(), index.symbols@, index.deps@), index.symbols@, index.deps@),
        decreases query.stages.len() - i,
    {
        rows = apply_stage(&query.stages[i], rows, index);
        assert(st.take(i + 1).drop_last() =~= st.take(i as int));
        assert(st.take(i + 1).last() == query.stages@[i as int].view());
        i += 1;
    }
    assert(st.take(query.stages.len() as int) =~= st);
    Ok(rows)
}

/// The output of one query of a batch; numbered when the batch has several.
pub open spec fn section(q: QueryV, i: int, multiple: bool, ss: Seq<Symbol>, ds: Seq<Dependency>, format: Seq<char>) -> Seq<char> {
    let formatted = format_rows_spec(query_rows(q, ss, ds), q.stages, format);
    if multiple {
        "# Query "@ + decimal((i + 1) as nat) + "\n"@ + formatted
    } else {
        formatted
    }
}

pub open spec fn batch_output(qs: Seq<QueryV>, ss: Seq<Symbol>, ds: Seq<Dependency>, format: Seq<char>) -> Seq<char> {
    join(Seq::new(qs.len(), |i: int| section(qs[i], i, qs.len() > 1, ss, ds, format)), "\n\n"@)
}

/// What a batch prints: a single query's rows as they would print alone
/// ("No results." when there are none); for several queries, the sections
/// `# Query 1`, `# Query 2`, ... each on its own line above that query's
/// output, joined by blank lines. In JSON format a query with rows prints
/// the JSON of its rows as the pipeline gave them, with no path alias.
pub proof fn lemma_batch_output(qs: Seq<QueryV>, ss: Seq<Symbol>, ds: Seq<Dependency>, format: Seq<char>)
    ensures
        qs.len() == 1 ==> batch_output(qs, ss, ds, format) == format_rows_spec(query_rows(qs[0], ss, ds), qs[0].stages, format),
        qs.len() > 1 ==> batch_output(qs, ss, ds, format) == join(
            Seq::new(qs.len(), |i: int| "# Query "@ + decimal((i + 1) as nat) + "\n"@ + format_rows_spec(query_rows(qs[i], ss, ds), qs[i].stages, format)),
            "\n\n"@,
        ),
        forall|i: int| 0 <= i < qs.len() && query_rows(qs[i], ss, ds).len() == 0
            ==> #[trigger] format_rows_spec(query_rows(qs[i], ss, ds), qs[i].stages, format) == "No results."@,
        format == "json"@ ==> forall|i: int| 0 <= i < qs.len() && query_rows(qs[i], ss, ds).len() > 0
            ==> #[trigger] format_rows_spec(query_rows(qs[i], ss, ds), qs[i].stages, format) == rows_json(query_rows(qs[i], ss, ds)),
{
    let secs = Seq::new(qs.len(), |i: int| section(qs[i], i, qs.len() > 1, ss, ds, format));
    if qs.len() == 1 {
        assert(secs.len() == 1);
    }
    if qs.len() > 1 {
        assert(secs =~= Seq::new(qs.len(), |i: int| "# Query "@ + decimal((i + 1) as nat) + "\n"@ + format_rows_spec(query_rows(qs[i], ss, ds), qs[i].stages, format)));
    }
}

/// Execute a batch of queries and return formatted output: one section per
/// query, numbered `# Query N` when there are several, separated by blank
/// lines.
pub fn execute_batch(batch: &Batch, index: &Index, format: &str) -> (r: Result<String, String>)
    ensures
        r matches Ok(out) && out@ == batch_output(queries_view(batch.queries@), index.symbols@, index.deps@, format@),
{
    let ghost qs = queries_view(batch.queries@);
    let ghost secs = Seq::new(qs.len(), |i: int| section(qs[i], i, qs.len() > 1, index.symbols@, index.deps@, format@));
    let multiple = batch.queries.len() > 1;
    let mut sections: Vec<String> = Vec::new();
    let mut i: usize = 0;
    while i < batch.queries.len()
        invariant
            i <= batch.queries.len(),
            qs == queries_view(batch.queries@),
            multiple == (qs.len() > 1),
            secs == Seq::new(qs.len(), |i: int| section(qs[i], i, qs.len() > 1, index.symbols@, index.deps@, format@)),
            views(sections@) == secs.take(i as int),
        decreases batch.queries.len() - i,
    {
        let q = &batch.queries[i];
        assert(qs[i as int] == q.view());
        let rows = match execute_query(q, index) {
            Ok(rows) => rows,
            Err(e) => {
                return Err(e);
            },
        };
        let formatted = format_rows(&rows, q, format);
        let sec = if multiple {
            let mut s = owned("# Query ");
            let n = usize_to_string(i + 1);
            push_str(&mut s, n.as_str());
            push_str(&mut s, "\n");
            push_str(&mut s, formatted.as_str());
            s
        } else {
            formatted
        };
        assert(sec@ == secs[i as int]);
        let ghost before = views(sections@);
        sections.push(sec);
        assert(views(sections@) =~= before.push(secs[i as int]));
        assert(secs.take(i + 1) =~= secs.take(i as int).push(secs[i as int]));
        i += 1;
    }
    assert(secs.take(batch.queries.len() as int) =~= secs);
    Ok(join_strings(&sections, "\n\n"))
}

} // verus!

verus! {

/// The text a condition compares against: its string, or its number in
/// decimal.
pub open spec fn target_text(v: ValueV) -> Seq<char> {
    match v {
        ValueV::Str(s) => s,
        ValueV::Num(n) => crate::text::signed_decimal(n as int),
    }
}

/// The integer a condition compares against, if it is one.
pub open spec fn target_number(v: ValueV) -> Option<i64> {
    match v {
        ValueV::Num(n) => Some(n),
        ValueV::Str(s) => parse_i64_spec(s),
    }
}

/// `t` occurs in `v` starting at some position.
pub open spec fn occurs_somewhere(v: Seq<char>, t: Seq<char>) -> bool {
    exists|i: int| 0 <= i && i + t.len() <= v.len() && #[trigger] v.subrange(i, i + t.len()) == t
}

/// What a condition asks of a row, operator by operator. The field must be
/// present for every test but `!=`; text tests compare lower-cased text,
/// with a number read as its decimal text: `=` equal text, `!=` the
/// opposite of `=`, `contains` the target at some position of the value,
/// `starts_with` at its start, `ends_with` at its end; `>`, `<`, `>=`, `<=`
/// compare the value and the target as integers and fail when either is not
/// one.
#[verifier::spinoff_prover]
pub proof fn lemma_condition_meaning(row: Map<Seq<char>, Seq<char>>, c: ConditionV)
    ensures
        c.op == Op::Eq ==> (matches_spec(row, c) <==> row.contains_key(c.field) && (lowercase(row[c.field])
            == lowercase(target_text(c.value)) || row[c.field] == target_text(c.value))),
        c.op == Op::NotEq ==> (matches_spec(row, c) <==> !row.contains_key(c.field) || lowercase(row[c.field])
            != lowercase(target_text(c.value))),
        c.op == Op::Contains ==> (matches_spec(row, c) <==> row.contains_key(c.field) && occurs_somewhere(
            lowercase(row[c.field]),
            lowercase(target_text(c.value)),
        )),
        c.op == Op::StartsWith ==> (matches_spec(row, c) <==> row.contains_key(c.field) && lowercase(
            target_text(c.value),
        ).len() <= lowercase(row[c.field]).len() && lowercase(row[c.field]).subrange(
            0,
            lowercase(target_text(c.value)).len() as int,
        ) == lowercase(target_text(c.value))),
        c.op == Op::EndsWith ==> (matches_spec(row, c) <==> row.contains_key(c.field) && lowercase(
            target_text(c.value),
        ).len() <= lowercase(row[c.field]).len() && lowercase(row[c.field]).subrange(
            lowercase(row[c.field]).len() - lowercase(target_text(c.value)).len(),
            lowercase(row[c.field]).len() as int,
        ) == lowercase(target_text(c.value))),
        c.op == Op::Gt ==> (matches_spec(row, c) <==> row.contains_key(c.field) && parse_i64_spec(row[c.field]) is Some
            && target_number(c.value) is Some && parse_i64_spec(row[c.field])->Some_0 > target_number(c.value)->Some_0),
        c.op == Op::Lt ==> (matches_spec(row, c) <==> row.contains_key(c.field) && parse_i64_spec(row[c.field]) is Some
            && target_number(c.value) is Some && parse_i64_spec(row[c.field])->Some_0 < target_number(c.value)->Some_0),
        c.op == Op::Gte ==> (matches_spec(row, c) <==> row.contains_key(c.field) && parse_i64_spec(row[c.field]) is Some
            && target_number(c.value) is Some && parse_i64_spec(row[c.field])->Some_0 >= target_number(c.value)->Some_0),
        c.op == Op::Lte ==> (matches_spec(row, c) <==> row.contains_key(c.field) && parse_i64_spec(row[c.field]) is Some
            && target_number(c.value) is Some && parse_i64_spec(row[c.field])->Some_0 <= target_number(c.value)->Some_0),
{
    let v = lowercase(row[c.field]);
    let t = lowercase(target_text(c.value));
    assert(crate::query::ast::value_text(c.value) == target_text(c.value));
    if contains(v, t) {
        let i = choose|i: int| crate::text::occurs_at(v, t, i);
        assert(v.subrange(i, i + t.len()) == t);
    }
    if occurs_somewhere(v, t) {
        let i = choose|i: int| 0 <= i && i + t.len() <= v.len() && #[trigger] v.subrange(i, i + t.len()) == t;
        assert(crate::text::occurs_at(v, t, i));
    }
}

/// The text tests relate as their names say, for every row and target:
/// `!=` holds exactly when `=` fails; a value that starts or ends with the
/// target contains it; and a present value equal to the target (ignoring
/// case) starts with it, ends with it and contains it.
#[verifier::spinoff_prover]
pub proof fn lemma_condition_relations(row: Map<Seq<char>, Seq<char>>, field: Seq<char>, value: ValueV)
    ensures
        matches_spec(row, ConditionV { field, op: Op::NotEq, value }) == !matches_spec(
            row,
            ConditionV { field, op: Op::Eq, value },
        ),
        matches_spec(row, ConditionV { field, op: Op::StartsWith, value }) ==> matches_spec(
            row,
            ConditionV { field, op: Op::Contains, value },
        ),
        matches_spec(row, ConditionV { field, op: Op::EndsWith, value }) ==> matches_spec(
            row,
            ConditionV { field, op: Op::Contains, value },
        ),
        row.contains_key(field) && lowercase(row[field]) == lowercase(crate::query::ast::value_text(value)) ==> {
            &&& matches_spec(row, ConditionV { field, op: Op::StartsWith, value })
            &&& matches_spec(row, ConditionV { field, op: Op::EndsWith, value })
            &&& matches_spec(row, ConditionV { field, op: Op::Contains, value })
        },
{
    let v = lowercase(row[field]);
    let t = lowercase(crate::query::ast::value_text(value));
    if row.contains_key(field) && starts_with(v, t) {
        assert(crate::text::occurs_at(v, t, 0));
    }
    if row.contains_key(field) && ends_with(v, t) {
        assert(crate::text::occurs_at(v, t, v.len() - t.len()));
    }
    if row.contains_key(field) && v == t {
        assert(v.subrange(0, t.len() as int) =~= t);
        assert(v.subrange(v.len() - t.len(), v.len() as int) =~= t);
        assert(crate::text::occurs_at(v, t, 0));
    }
    if row.contains_key(field) && row[field] == crate::query::ast::value_text(value) {
        assert(v == t);
    }
}

} // verus!

