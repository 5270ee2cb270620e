//! Parser for the query DSL: a query string to a [`Batch`].

use vstd::prelude::*;

use super::ast::{
    dnf_view, group_view, queries_view, stages_view, strings_view, Batch, Condition, ConditionV,
    Enrichment, Op, Query, QueryV, Source, SourceV, Stage, StageV, Value, ValueV,
};
use crate::ir::types::{symbol_kind_of_term, SymbolKind};
use crate::lang::{languages, registry, str_in, strs};
use crate::text::{
    char_is_ws, chars_of, is_ws, lemma_take_push, lowercase, owned, parse_i64, parse_i64_spec,
    parse_usize, parse_usize_spec, push_str, str_eq, string_from, to_lower, trim, trim_str, views,
};

verus! {

// ---------------------------------------------------------------------------
// Splitting and tokenizing
// ---------------------------------------------------------------------------

/// Scanner state while splitting on a delimiter outside quotes: parts so far,
/// current part, inside a quote, the opening quote character.
pub open spec fn split_step(
    st: (Seq<Seq<char>>, Seq<char>, bool, char),
    ch: char,
    delim: char,
) -> (Seq<Seq<char>>, Seq<char>, bool, char) {
    let (parts, cur, inq, qc) = st;
    if !inq && (ch == '\'' || ch == '"') {
        (parts, cur.push(ch), true, ch)
    } else if inq && ch == qc {
        (parts, cur.push(ch), false, qc)
    } else if !inq && ch == delim {
        (parts.push(cur), seq![], inq, qc)
    } else {
        (parts, cur.push(ch), inq, qc)
    }
}

pub open spec fn split_scan(s: Seq<char>, delim: char) -> (Seq<Seq<char>>, Seq<char>, bool, char)
    decreases s.len(),
{
    if s.len() == 0 {
        (seq![], seq![], false, '"')
    } else {
        split_step(split_scan(s.drop_last(), delim), s.last(), delim)
    }
}

/// `s` split on `delim` where it stands outside a quoted string; the last part
/// is kept only if it is not blank. Quotes stay in the parts.
pub open spec fn split_quotes_spec(s: Seq<char>, delim: char) -> Seq<Seq<char>> {
    let (parts, cur, _, _) = split_scan(s, delim);
    if trim(cur).len() > 0 {
        parts.push(cur)
    } else {
        parts
    }
}

pub open spec fn tok_step(
    st: (Seq<Seq<char>>, Seq<char>, bool, char),
    ch: char,
) -> (Seq<Seq<char>>, Seq<char>, bool, char) {
    let (toks, cur, inq, qc) = st;
    if !inq && (ch == '\'' || ch == '"') {
        (toks, cur, true, ch)
    } else if inq && ch == qc {
        (toks.push(cur), seq![], false, qc)
    } else if !inq && is_ws(ch) {
        if cur.len() > 0 {
            (toks.push(cur), seq![], inq, qc)
        } else {
            (toks, cur, inq, qc)
        }
    } else if !inq && ch == ',' {
        if cur.len() > 0 {
            (toks.push(cur).push(seq![',']), seq![], inq, qc)
        } else {
            (toks.push(seq![',']), seq![], inq, qc)
        }
    } else {
        (toks, cur.push(ch), inq, qc)
    }
}

pub open spec fn tok_scan(s: Seq<char>) -> (Seq<Seq<char>>, Seq<char>, bool, char)
    decreases s.len(),
{
    if s.len() == 0 {
        (seq![], seq![], false, '"')
    } else {
        tok_step(tok_scan(s.drop_last()), s.last())
    }
}

/// Whitespace-separated tokens; a quoted string (quotes removed) is one token
/// even if empty; `,` outside quotes is a token of its own.
pub open spec fn tokenize_spec(s: Seq<char>) -> Seq<Seq<char>> {
    let (toks, cur, _, _) = tok_scan(s);
    if cur.len() > 0 {
        toks.push(cur)
    } else {
        toks
    }
}

/// Split a string on a delimiter character, respecting quoted strings.
pub fn split_respecting_quotes(input: &str, delimiter: char) -> (r: Vec<String>)
    ensures
        views(r@) == split_quotes_spec(input@, delimiter),
{
    let v = chars_of(input);
    let mut parts: Vec<String> = Vec::new();
    let mut cur: Vec<char> = Vec::new();
    let mut in_quote = false;
    let mut quote_char = '"';
    let mut i: usize = 0;
    assert(views(parts@) =~= Seq::<Seq<char>>::empty());
    while i < v.len()
        invariant
            i <= v.len(),
            v@ == input@,
            (views(parts@), cur@, in_quote, quote_char) == split_scan(input@.take(i as int), delimiter),
        decreases v.len() - i,
    {
        proof {
            lemma_take_push(input@, i as int);
        }
        let ch = v[i];
        if !in_quote && (ch == '\'' || ch == '"') {
            in_quote = true;
            quote_char = ch;
            cur.push(ch);
        } else if in_quote && ch == quote_char {
            in_quote = false;
            cur.push(ch);
        } else if !in_quote && ch == delimiter {
            let s = string_from(&cur);
            parts.push(s);
            assert(views(parts@) =~= views(parts@.drop_last()).push(cur@));
            cur = Vec::new();
        } else {
            cur.push(ch);
        }
        i += 1;
    }
    assert(input@.take(v.len() as int) =~= input@);
    let (a, b) = crate::text::trim_bounds(&cur);
    if a < b {
        let s = string_from(&cur);
        parts.push(s);
        assert(views(parts@) =~= views(parts@.drop_last()).push(cur@));
    }
    parts
}

/// Tokenize respecting quoted strings.
pub fn tokenize(input: &str) -> (r: Vec<String>)
    ensures
        views(r@) == tokenize_spec(input@),
{
    let v = chars_of(input);
    let mut toks: Vec<String> = Vec::new();
    let mut cur: Vec<char> = Vec::new();
    let mut in_quote = false;
    let mut quote_char = '"';
    let mut i: usize = 0;
    assert(views(toks@) =~= Seq::<Seq<char>>::empty());
    while i < v.len()
        invariant
            i <= v.len(),
            v@ == input@,
            (views(toks@), cur@, in_quote, quote_char) == tok_scan(input@.take(i as int)),
        decreases v.len() - i,
    {
        proof {
            lemma_take_push(input@, i as int);
        }
        let ch = v[i];
        let ghost before = views(toks@);
        if !in_quote && (ch == '\'' || ch == '"') {
            in_quote = true;
            quote_char = ch;
        } else if in_quote && ch == quote_char {
            in_quote = false;
            toks.push(string_from(&cur));
            assert(views(toks@) =~= before.push(cur@));
            cur = Vec::new();
        } else if !in_quote && char_is_ws(ch) {
            if cur.len() > 0 {
                toks.push(string_from(&cur));
                assert(views(toks@) =~= before.push(cur@));
                cur = Vec::new();
            }
        } else if !in_quote && ch == ',' {
            if cur.len() > 0 {
                toks.push(string_from(&cur));
                assert(views(toks@) =~= before.push(cur@));
                cur = Vec::new();
            }
            let ghost mid = views(toks@);
            let mut comma = String::new();
            crate::text::push_char(&mut comma, ',');
            assert(comma@ =~= seq![',']);
            toks.push(comma);
            assert(views(toks@) =~= mid.push(seq![',']));
        } else {
            cur.push(ch);
        }
        i += 1;
    }
    assert(input@.take(v.len() as int) =~= input@);
    if cur.len() > 0 {
        let ghost before = views(toks@);
        toks.push(string_from(&cur));
        assert(views(toks@) =~= before.push(cur@));
    }
    toks
}

// ---------------------------------------------------------------------------
// Conditions
// ---------------------------------------------------------------------------

pub open spec fn parse_op_spec(s: Seq<char>) -> Option<Op> {
    if s == "="@ || s == "=="@ || s == "is"@ {
        Some(Op::Eq)
    } else if s == "!="@ || s == "is_not"@ {
        Some(Op::NotEq)
    } else if s == "contains"@ || s == "has"@ || s == "includes"@ || s == "~"@ {
        Some(Op::Contains)
    } else if s == ">"@ {
        Some(Op::Gt)
    } else if s == "<"@ {
        Some(Op::Lt)
    } else if s == ">="@ {
        Some(Op::Gte)
    } else if s == "<="@ {
        Some(Op::Lte)
    } else if s == "starts_with"@ || s == "startswith"@ {
        Some(Op::StartsWith)
    } else if s == "ends_with"@ || s == "endswith"@ {
        Some(Op::EndsWith)
    } else {
        None
    }
}

/// A number if the token parses as an `i64`, else the token as a string.
pub open spec fn parse_value_spec(s: Seq<char>) -> ValueV {
    match parse_i64_spec(s) {
        Some(n) => ValueV::Num(n),
        None => ValueV::Str(s),
    }
}

/// Read conditions from position `i` on: `field op value`, joined by `and`
/// (same group) or `or` (new group); commas are skipped; a connector that is
/// neither is left to be read as the next field.
pub open spec fn where_loop(
    t: Seq<Seq<char>>,
    i: int,
    groups: Seq<Seq<ConditionV>>,
    cur: Seq<ConditionV>,
) -> Option<Seq<Seq<ConditionV>>>
    decreases t.len() - i,
{
    if i < 0 || i >= t.len() {
        Some(if cur.len() > 0 { groups.push(cur) } else { groups })
    } else if t[i] == seq![','] {
        where_loop(t, i + 1, groups, cur)
    } else if i + 2 >= t.len() {
        None
    } else {
        match parse_op_spec(t[i + 1]) {
            None => None,
            Some(op) => {
                let c = ConditionV { field: lowercase(t[i]), op, value: parse_value_spec(t[i + 2]) };
                let j = i + 3;
                if j < t.len() && lowercase(t[j]) == "and"@ {
                    where_loop(t, j + 1, groups, cur.push(c))
                } else if j < t.len() && lowercase(t[j]) == "or"@ {
                    where_loop(t, j + 1, groups.push(cur.push(c)), seq![])
                } else {
                    where_loop(t, j, groups, cur.push(c))
                }
            },
        }
    }
}

/// Conditions of a clause that starts with `where` at position `p`, in
/// disjunctive normal form (OR of AND groups).
pub open spec fn where_at_spec(t: Seq<Seq<char>>, p: int) -> Option<Seq<Seq<ConditionV>>> {
    if p < 0 || p >= t.len() || lowercase(t[p]) != "where"@ {
        None
    } else {
        where_loop(t, p + 1, seq![], seq![])
    }
}

/// An optional `where` clause at position `p`: none if the tokens end or do
/// not continue with `where`.
pub open spec fn where_opt_spec(t: Seq<Seq<char>>, p: int) -> Option<Seq<Seq<ConditionV>>> {
    if p >= t.len() || lowercase(t[p]) != "where"@ {
        Some(seq![])
    } else {
        where_at_spec(t, p)
    }
}

/// Parse an operator string.
pub fn parse_op(s: &str) -> (r: Result<Op, String>)
    ensures
        match r {
            Ok(op) => parse_op_spec(s@) == Some(op),
            Err(_) => parse_op_spec(s@) is None,
        },
{
    if str_eq(s, "=") || str_eq(s, "==") || str_eq(s, "is") {
        Ok(Op::Eq)
    } else if str_eq(s, "!=") || str_eq(s, "is_not") {
        Ok(Op::NotEq)
    } else if str_eq(s, "contains") || str_eq(s, "has") || str_eq(s, "includes") || str_eq(s, "~") {
        Ok(Op::Contains)
    } else if str_eq(s, ">") {
        Ok(Op::Gt)
    } else if str_eq(s, "<") {
        Ok(Op::Lt)
    } else if str_eq(s, ">=") {
        Ok(Op::Gte)
    } else if str_eq(s, "<=") {
        Ok(Op::Lte)
    } else if str_eq(s, "starts_with") || str_eq(s, "startswith") {
        Ok(Op::StartsWith)
    } else if str_eq(s, "ends_with") || str_eq(s, "endswith") {
        Ok(Op::EndsWith)
    } else {
        let mut m = owned("unknown operator '");
        push_str(&mut m, s);
        push_str(
            &mut m,
            "'. Expected: =, !=, contains, >, <, >=, <=, starts_with, ends_with",
        );
        Err(m)
    }
}

/// Parse a value: a number if it parses as one, else a string.
pub fn parse_value(s: &str) -> (r: Value)
    ensures
        r.view() == parse_value_spec(s@),
{
    match parse_i64(s) {
        Some(n) => Value::Number(n),
        None => Value::String(owned(s)),
    }
}

fn lower_is(s: &str, lit: &str) -> (r: bool)
    ensures
        r == (lowercase(s@) == lit@),
{
    let l = to_lower(s);
    str_eq(l.as_str(), lit)
}

fn comma_token(s: &str) -> (r: bool)
    ensures
        r == (s@ == seq![',']),
{
    let v = chars_of(s);
    let r = v.len() == 1 && v[0] == ',';
    proof {
        if v@.len() == 1 && v@[0] == ',' {
            assert(v@ =~= seq![',']);
        }
    }
    r
}

/// Parse conditions from the tokens starting at the `where` at position `p`.
/// Returns DNF: a list of AND groups, OR'd together.
pub fn parse_where_conditions(t: &Vec<String>, p: usize) -> (r: Result<Vec<Vec<Condition>>, String>)
    ensures
        match r {
            Ok(d) => where_at_spec(views(t@), p as int) == Some(dnf_view(d@)),
            Err(_) => where_at_spec(views(t@), p as int) is None,
        },
{
    if p >= t.len() || !lower_is(t[p].as_str(), "where") {
        return Err(owned("expected 'where'"));
    }
    let ghost tv = views(t@);
    let mut groups: Vec<Vec<Condition>> = Vec::new();
    let mut cur: Vec<Condition> = Vec::new();
    let mut i = p + 1;
    assert(dnf_view(groups@) =~= Seq::<Seq<ConditionV>>::empty());
    assert(group_view(cur@) =~= Seq::<ConditionV>::empty());
    while i < t.len()
        invariant
            tv == views(t@),
            p < i <= t.len() + 1 || i <= t.len(),
            where_loop(tv, i as int, dnf_view(groups@), group_view(cur@)) == where_at_spec(tv, p as int),
        decreases t.len() - i,
    {
        assert(tv[i as int] == t@[i as int]@);
        if comma_token(t[i].as_str()) {
            i += 1;
            continue;
        }
        if t.len() - i <= 2 {
            return Err(owned("incomplete condition: expected field op value"));
        }
        assert(tv[i + 1] == t@[i + 1]@);
        assert(tv[i + 2] == t@[i + 2]@);
        let op = match parse_op(t[i + 1].as_str()) {
            Ok(op) => op,
            Err(e) => return Err(e),
        };
        let field = to_lower(t[i].as_str());
        let value = parse_value(t[i + 2].as_str());
        let c = Condition { field, op, value };
        let ghost gv = group_view(cur@);
        cur.push(c);
        assert(group_view(cur@) =~= gv.push(c.view()));
        i += 3;
        if i < t.len() {
            assert(tv[i as int] == t@[i as int]@);
            if lower_is(t[i].as_str(), "and") {
                i += 1;
            } else if lower_is(t[i].as_str(), "or") {
                i += 1;
                let ghost dv = dnf_view(groups@);
                let done = cur;
                groups.push(done);
                assert(dnf_view(groups@) =~= dv.push(group_view(done@)));
                cur = Vec::new();
                assert(group_view(cur@) =~= Seq::<ConditionV>::empty());
            }
        }
    }
    if cur.len() > 0 {
        let ghost dv = dnf_view(groups@);
        let ghost cv = group_view(cur@);
        groups.push(cur);
        assert(dnf_view(groups@) =~= dv.push(cv));
    }
    Ok(groups)
}

/// Parse an optional `where` clause at position `p` (none if the tokens end
/// or do not continue with `where`).
pub fn parse_where_from_tokens(t: &Vec<String>, p: usize) -> (r: Result<Vec<Vec<Condition>>, String>)
    ensures
        match r {
            Ok(d) => where_opt_spec(views(t@), p as int) == Some(dnf_view(d@)),
            Err(_) => where_opt_spec(views(t@), p as int) is None,
        },
{
    if p >= t.len() {
        let d: Vec<Vec<Condition>> = Vec::new();
        assert(dnf_view(d@) =~= Seq::<Seq<ConditionV>>::empty());
        return Ok(d);
    }
    assert(views(t@)[p as int] == t@[p as int]@);
    if !lower_is(t[p].as_str(), "where") {
        let d: Vec<Vec<Condition>> = Vec::new();
        assert(dnf_view(d@) =~= Seq::<Seq<ConditionV>>::empty());
        return Ok(d);
    }
    parse_where_conditions(t, p)
}

// ---------------------------------------------------------------------------
// Stages
// ---------------------------------------------------------------------------

pub open spec fn enrichment_of(s: Seq<char>) -> Option<Enrichment> {
    if s == "fields"@ {
        Some(Enrichment::Fields)
    } else if s == "params"@ {
        Some(Enrichment::Params)
    } else if s == "deps"@ || s == "dependencies"@ {
        Some(Enrichment::Deps)
    } else if s == "refs"@ || s == "references"@ {
        Some(Enrichment::Refs)
    } else if s == "signature"@ || s == "sig"@ {
        Some(Enrichment::Signature)
    } else {
        None
    }
}

/// Enrichments named from position `i` on (commas skipped); at least one.
pub open spec fn with_loop(t: Seq<Seq<char>>, i: int, acc: Seq<Enrichment>) -> Option<Seq<Enrichment>>
    decreases t.len() - i,
{
    if i < 0 || i >= t.len() {
        if acc.len() == 0 { None } else { Some(acc) }
    } else if t[i] == seq![','] {
        with_loop(t, i + 1, acc)
    } else {
        match enrichment_of(lowercase(t[i])) {
            None => None,
            Some(e) => with_loop(t, i + 1, acc.push(e)),
        }
    }
}

/// Column names from position `i` on, commas skipped, lower-cased.
pub open spec fn show_loop(t: Seq<Seq<char>>, i: int, acc: Seq<Seq<char>>) -> Seq<Seq<char>>
    decreases t.len() - i,
{
    if i < 0 || i >= t.len() {
        acc
    } else if t[i] == seq![','] {
        show_loop(t, i + 1, acc)
    } else {
        show_loop(t, i + 1, acc.push(lowercase(t[i])))
    }
}

/// A pipeline stage.
pub open spec fn stage_spec(s: Seq<char>) -> Option<StageV> {
    let t = tokenize_spec(s);
    if t.len() == 0 {
        None
    } else {
        let kw = lowercase(t[0]);
        if kw == "with"@ {
            match with_loop(t, 1, seq![]) {
                Some(e) => Some(StageV::With { enrichments: e }),
                None => None,
            }
        } else if kw == "show"@ {
            let cols = show_loop(t, 1, seq![]);
            if cols.len() == 0 { None } else { Some(StageV::Show { columns: cols }) }
        } else if kw == "where"@ {
            match where_at_spec(t, 0) {
                Some(c) => Some(StageV::Where { conditions: c }),
                None => None,
            }
        } else if kw == "sort"@ {
            if t.len() < 2 {
                None
            } else {
                Some(StageV::Sort {
                    field: lowercase(t[1]),
                    descending: t.len() > 2 && (lowercase(t[2]) == "desc"@ || lowercase(t[2]) == "descending"@),
                })
            }
        } else if kw == "limit"@ {
            if t.len() < 2 {
                None
            } else {
                match parse_usize_spec(t[1]) {
                    Some(n) => Some(StageV::Limit { count: n }),
                    None => None,
                }
            }
        } else {
            None
        }
    }
}

/// Parse "with fields, deps, refs, ..." (tokens from position 1 on).
fn parse_with_stage(t: &Vec<String>) -> (r: Result<Stage, String>)
    ensures
        match r {
            Ok(s) => with_loop(views(t@), 1, seq![]) == Some(s.view()->enrichments) && s is With,
            Err(_) => with_loop(views(t@), 1, seq![]) is None,
        },
{
    let ghost tv = views(t@);
    let mut acc: Vec<Enrichment> = Vec::new();
    let mut i: usize = 1;
    while i < t.len()
        invariant
            tv == views(t@),
            with_loop(tv, i as int, acc@) == with_loop(tv, 1, seq![]),
        decreases t.len() - i,
    {
        assert(tv[i as int] == t@[i as int]@);
        if comma_token(t[i].as_str()) {
            i += 1;
            continue;
        }
        let tok = t[i].as_str();
        let e = if lower_is(tok, "fields") {
            Enrichment::Fields
        } else if lower_is(tok, "params") {
            Enrichment::Params
        } else if lower_is(tok, "deps") || lower_is(tok, "dependencies") {
            Enrichment::Deps
        } else if lower_is(tok, "refs") || lower_is(tok, "references") {
            Enrichment::Refs
        } else if lower_is(tok, "signature") || lower_is(tok, "sig") {
            Enrichment::Signature
        } else {
            let mut m = owned("unknown enrichment '");
            push_str(&mut m, tok);
            push_str(&mut m, "'. Expected: fields, params, deps, refs, signature");
            return Err(m);
        };
        acc.push(e);
        i += 1;
    }
    if acc.len() == 0 {
        return Err(owned("'with' requires at least one enrichment"));
    }
    Ok(Stage::With { enrichments: acc })
}

/// Parse "show col1, col2, ..." (tokens from position 1 on).
fn parse_show_stage(t: &Vec<String>) -> (r: Result<Stage, String>)
    ensures
        match r {
            Ok(s) => s is Show && s.view()->columns == show_loop(views(t@), 1, seq![])
                && show_loop(views(t@), 1, seq![]).len() > 0,
            Err(_) => show_loop(views(t@), 1, seq![]).len() == 0,
        },
{
    let ghost tv = views(t@);
    let mut cols: Vec<String> = Vec::new();
    let mut i: usize = 1;
    assert(strings_view(cols@) =~= Seq::<Seq<char>>::empty());
    while i < t.len()
        invariant
            tv == views(t@),
            show_loop(tv, i as int, strings_view(cols@)) == show_loop(tv, 1, seq![]),
        decreases t.len() - i,
    {
        assert(tv[i as int] == t@[i as int]@);
        if !comma_token(t[i].as_str()) {
            let ghost before = strings_view(cols@);
            cols.push(to_lower(t[i].as_str()));
            assert(strings_view(cols@) =~= before.push(lowercase(tv[i as int])));
        }
        i += 1;
    }
    if cols.len() == 0 {
        return Err(owned("'show' requires at least one column"));
    }
    Ok(Stage::Show { columns: cols })
}

/// Parse "sort field [asc|desc]" (tokens from position 1 on).
fn parse_sort_stage(t: &Vec<String>) -> (r: Result<Stage, String>)
    requires
        t.len() >= 1,
    ensures
        match r {
            Ok(s) => t.len() >= 2 && s.view() == (StageV::Sort {
                field: lowercase(t@[1]@),
                descending: t.len() > 2 && (lowercase(t@[2]@) == "desc"@ || lowercase(t@[2]@)
                    == "descending"@),
            }),
            Err(_) => t.len() < 2,
        },
{
    if t.len() < 2 {
        return Err(owned("'sort' requires a field name"));
    }
    let field = to_lower(t[1].as_str());
    let descending = if t.len() > 2 {
        lower_is(t[2].as_str(), "desc") || lower_is(t[2].as_str(), "descending")
    } else {
        false
    };
    Ok(Stage::Sort { field, descending })
}

/// Parse "limit N" (tokens from position 1 on).
fn parse_limit_stage(t: &Vec<String>) -> (r: Result<Stage, String>)
    requires
        t.len() >= 1,
    ensures
        match r {
            Ok(s) => t.len() >= 2 && parse_usize_spec(t@[1]@) == Some(s.view()->count) && s is Limit,
            Err(_) => t.len() < 2 || parse_usize_spec(t@[1]@) is None,
        },
{
    if t.len() < 2 {
        return Err(owned("'limit' requires a number"));
    }
    match parse_usize(t[1].as_str()) {
        Some(count) => Ok(Stage::Limit { count }),
        None => {
            let mut m = owned("'limit' expected a number, got '");
            push_str(&mut m, t[1].as_str());
            push_str(&mut m, "'");
            Err(m)
        },
    }
}

/// Parse a pipeline stage.
pub fn parse_stage(input: &str) -> (r: Result<Stage, String>)
    ensures
        match r {
            Ok(s) => stage_spec(input@) == Some(s.view()),
            Err(_) => stage_spec(input@) is None,
        },
{
    let t = tokenize(input);
    if t.len() == 0 {
        return Err(owned("empty pipeline stage"));
    }
    assert(views(t@)[0] == t@[0]@);
    let kw = t[0].as_str();
    if lower_is(kw, "with") {
        parse_with_stage(&t)
    } else if lower_is(kw, "show") {
        parse_show_stage(&t)
    } else if lower_is(kw, "where") {
        match parse_where_conditions(&t, 0) {
            Ok(conditions) => Ok(Stage::Where { conditions }),
            Err(e) => Err(e),
        }
    } else if lower_is(kw, "sort") {
        let r = parse_sort_stage(&t);
        proof {
            if t.len() >= 2 {
                assert(views(t@)[1] == t@[1]@);
            }
            if t.len() >= 3 {
                assert(views(t@)[2] == t@[2]@);
            }
        }
        r
    } else if lower_is(kw, "limit") {
        let r = parse_limit_stage(&t);
        proof {
            if t.len() >= 2 {
                assert(views(t@)[1] == t@[1]@);
            }
        }
        r
    } else {
        let mut m = owned("unknown stage '");
        let l = to_lower(kw);
        push_str(&mut m, l.as_str());
        push_str(&mut m, "'. Expected: with, show, where, sort, limit");
        Err(m)
    }
}

// ---------------------------------------------------------------------------
// Kind terms
// ---------------------------------------------------------------------------

/// Some registered language emits kind `t`.
pub open spec fn native_kind_term(t: Seq<char>) -> bool {
    exists|i: int| 0 <= i < registry().len() && (#[trigger] registry()[i]).kinds.contains(t)
}

/// Plural (and long) forms of native kinds; `functions` spans the free
/// functions of every language.
pub open spec fn plural_kinds(t: Seq<char>) -> Option<Seq<Seq<char>>> {
    if t == "functions"@ {
        Some(seq!["fn"@, "func"@, "function"@, "def"@])
    } else if t == "fns"@ {
        Some(seq!["fn"@])
    } else if t == "funcs"@ {
        Some(seq!["func"@])
    } else if t == "defs"@ {
        Some(seq!["def"@])
    } else if t == "methods"@ {
        Some(seq!["method"@])
    } else if t == "structs"@ {
        Some(seq!["struct"@])
    } else if t == "classes"@ {
        Some(seq!["class"@])
    } else if t == "interfaces"@ {
        Some(seq!["interface"@])
    } else if t == "traits"@ {
        Some(seq!["trait"@])
    } else if t == "enums"@ {
        Some(seq!["enum"@])
    } else if t == "records"@ {
        Some(seq!["record"@])
    } else if t == "annotations"@ {
        Some(seq!["annotation"@])
    } else if t == "impls"@ {
        Some(seq!["impl"@])
    } else if t == "consts"@ {
        Some(seq!["const"@])
    } else if t == "types"@ {
        Some(seq!["type"@])
    } else if t == "mods"@ || t == "modules"@ || t == "module"@ {
        Some(seq!["mod"@])
    } else if t == "namespaces"@ {
        Some(seq!["namespace"@])
    } else {
        None
    }
}

/// The native kinds a kind term names: itself if some language emits it,
/// else the kinds its plural form covers.
pub open spec fn normalize_kind_spec(term: Seq<char>) -> Option<Seq<Seq<char>>> {
    let t = lowercase(term);
    if native_kind_term(t) {
        Some(seq![t])
    } else {
        plural_kinds(t)
    }
}

fn is_native_kind(t: &str) -> (r: bool)
    ensures
        r == native_kind_term(t@),
{
    let langs = languages();
    let mut i: usize = 0;
    while i < langs.len()
        invariant
            i <= langs.len(),
            langs@.len() == registry().len(),
            forall|j: int| 0 <= j < langs@.len() ==> #[trigger] langs@[j].spec() == registry()[j],
            forall|j: int| 0 <= j < i ==> !(#[trigger] registry()[j]).kinds.contains(t@),
        decreases langs.len() - i,
    {
        assert(langs@[i as int].spec() == registry()[i as int]);
        if str_in(&langs[i].kinds, t) {
            return true;
        }
        i += 1;
    }
    false
}

fn strings(v: Vec<&'static str>) -> (r: Vec<String>)
    ensures
        views(r@) == strs(v@),
{
    let mut r: Vec<String> = Vec::new();
    let mut i: usize = 0;
    while i < v.len()
        invariant
            i <= v.len(),
            views(r@) == strs(v@).take(i as int),
        decreases v.len() - i,
    {
        r.push(owned(v[i]));
        assert(strs(v@).take(i + 1) =~= strs(v@).take(i as int).push(v@[i as int]@));
        assert(views(r@) =~= views(r@.drop_last()).push(r@.last()@));
        i += 1;
    }
    assert(strs(v@).take(v.len() as int) =~= strs(v@));
    r
}

/// The language-native kinds a kind term names (`class` → `[class]`,
/// `functions` → `[fn, func, function, def]`), or `None` if it names none.
pub fn normalize_kind_filter(term: &str) -> (r: Option<Vec<String>>)
    ensures
        match r {
            Some(v) => normalize_kind_spec(term@) == Some(views(v@)),
            None => normalize_kind_spec(term@) is None,
        },
{
    let lower = to_lower(term);
    let t = lower.as_str();
    if is_native_kind(t) {
        let v = vec![lower];
        assert(views(v@) =~= seq![lowercase(term@)]);
        return Some(v);
    }
    let ks: Vec<&'static str> = if str_eq(t, "functions") {
        vec!["fn", "func", "function", "def"]
    } else if str_eq(t, "fns") {
        vec!["fn"]
    } else if str_eq(t, "funcs") {
        vec!["func"]
    } else if str_eq(t, "defs") {
        vec!["def"]
    } else if str_eq(t, "methods") {
        vec!["method"]
    } else if str_eq(t, "structs") {
        vec!["struct"]
    } else if str_eq(t, "classes") {
        vec!["class"]
    } else if str_eq(t, "interfaces") {
        vec!["interface"]
    } else if str_eq(t, "traits") {
        vec!["trait"]
    } else if str_eq(t, "enums") {
        vec!["enum"]
    } else if str_eq(t, "records") {
        vec!["record"]
    } else if str_eq(t, "annotations") {
        vec!["annotation"]
    } else if str_eq(t, "impls") {
        vec!["impl"]
    } else if str_eq(t, "consts") {
        vec!["const"]
    } else if str_eq(t, "types") {
        vec!["type"]
    } else if str_eq(t, "mods") || str_eq(t, "modules") || str_eq(t, "module") {
        vec!["mod"]
    } else if str_eq(t, "namespaces") {
        vec!["namespace"]
    } else {
        return None;
    };
    let r = strings(ks);
    assert(views(r@) =~= plural_kinds(t@)->0);
    Some(r)
}

// ---------------------------------------------------------------------------
// Sources
// ---------------------------------------------------------------------------

pub open spec fn kind_cond(k: Seq<char>) -> ConditionV {
    ConditionV { field: "kind"@, op: Op::Eq, value: ValueV::Str(k) }
}

/// `w` AND `kind = k`.
pub open spec fn conj_kind(w: Seq<Seq<ConditionV>>, k: Seq<char>) -> Seq<Seq<ConditionV>> {
    if w.len() == 0 {
        seq![seq![kind_cond(k)]]
    } else {
        w.map_values(|g: Seq<ConditionV>| seq![kind_cond(k)] + g)
    }
}

/// `w` AND (`kind = k1` OR `kind = k2` ...), in disjunctive normal form.
pub open spec fn conj_kinds(w: Seq<Seq<ConditionV>>, ks: Seq<Seq<char>>) -> Seq<Seq<ConditionV>>
    decreases ks.len(),
{
    if ks.len() == 0 {
        seq![]
    } else {
        conj_kinds(w, ks.drop_last()) + conj_kind(w, ks.last())
    }
}

/// A symbols source: optional `in <file>`, then an optional `where` clause.
pub open spec fn symbols_source_spec(t: Seq<Seq<char>>, kf: Option<SymbolKind>) -> Option<SourceV> {
    if 1 < t.len() && lowercase(t[1]) == "in"@ {
        if 2 >= t.len() {
            None
        } else {
            match where_opt_spec(t, 3) {
                Some(w) => Some(SourceV::Symbols { kind_filter: kf, in_file: Some(t[2]), where_clause: w }),
                None => None,
            }
        }
    } else {
        match where_opt_spec(t, 1) {
            Some(w) => Some(SourceV::Symbols { kind_filter: kf, in_file: None, where_clause: w }),
            None => None,
        }
    }
}

/// The source clause (everything before the first `|`).
pub open spec fn source_spec(s: Seq<char>) -> Option<SourceV> {
    let t = tokenize_spec(s);
    if t.len() == 0 {
        None
    } else {
        let kw = lowercase(t[0]);
        if kw == "symbols"@ {
            symbols_source_spec(t, None)
        } else if symbol_kind_of_term(kw) is Some {
            symbols_source_spec(t, symbol_kind_of_term(kw))
        } else if kw == "symbol"@ {
            if t.len() < 2 {
                None
            } else {
                match where_opt_spec(t, 2) {
                    Some(w) => Some(SourceV::Symbol { name: t[1], where_clause: w }),
                    None => None,
                }
            }
        } else if kw == "deps"@ || kw == "refs"@ {
            let named = t.len() > 1 && lowercase(t[1]) != "where"@;
            let name = if named { Some(t[1]) } else { None };
            match where_opt_spec(t, if named { 2 } else { 1 }) {
                Some(w) => if kw == "deps"@ {
                    Some(SourceV::Deps { name, where_clause: w })
                } else {
                    Some(SourceV::Refs { name, where_clause: w })
                },
                None => None,
            }
        } else {
            match normalize_kind_spec(t[0]) {
                Some(ks) => match symbols_source_spec(t, None) {
                    Some(SourceV::Symbols { kind_filter, in_file, where_clause }) => Some(
                        SourceV::Symbols {
                            kind_filter,
                            in_file,
                            where_clause: conj_kinds(where_clause, ks),
                        },
                    ),
                    _ => None,
                },
                None => None,
            }
        }
    }
}

/// Parse a symbols source with optional "in 'file'" and "where" clauses.
fn parse_symbols_source(t: &Vec<String>, kind_filter: Option<SymbolKind>) -> (r: Result<Source, String>)
    ensures
        match r {
            Ok(s) => symbols_source_spec(views(t@), kind_filter) == Some(s.view()) && s is Symbols,
            Err(_) => symbols_source_spec(views(t@), kind_filter) is None,
        },
{
    if 1 < t.len() && lower_is(t[1].as_str(), "in") {
        assert(views(t@)[1] == t@[1]@);
        if 2 >= t.len() {
            return Err(owned("'in' requires a file path argument"));
        }
        assert(views(t@)[2] == t@[2]@);
        let in_file = Some(t[2].clone());
        match parse_where_from_tokens(t, 3) {
            Ok(where_clause) => Ok(Source::Symbols { kind_filter, in_file, where_clause }),
            Err(e) => Err(e),
        }
    } else {
        proof {
            if 1 < t.len() {
                assert(views(t@)[1] == t@[1]@);
            }
        }
        match parse_where_from_tokens(t, 1) {
            Ok(where_clause) => Ok(Source::Symbols { kind_filter, in_file: None, where_clause }),
            Err(e) => Err(e),
        }
    }
}

fn clone_value(v: &Value) -> (r: Value)
    ensures
        r.view() == v.view(),
{
    match v {
        Value::String(s) => Value::String(s.clone()),
        Value::Number(n) => Value::Number(*n),
    }
}

/// A copy of a condition.
pub fn clone_condition(c: &Condition) -> (r: Condition)
    ensures
        r.view() == c.view(),
{
    Condition { field: c.field.clone(), op: c.op, value: clone_value(&c.value) }
}

fn kind_condition(k: &String) -> (r: Condition)
    ensures
        r.view() == kind_cond(k@),
{
    Condition { field: owned("kind"), op: Op::Eq, value: Value::String(k.clone()) }
}

/// `w` AND `kind` being one of `ks`.
fn conjoin_kinds(w: &Vec<Vec<Condition>>, ks: &Vec<String>) -> (r: Vec<Vec<Condition>>)
    ensures
        dnf_view(r@) == conj_kinds(dnf_view(w@), views(ks@)),
{
    let mut out: Vec<Vec<Condition>> = Vec::new();
    let mut i: usize = 0;
    assert(dnf_view(out@) =~= Seq::<Seq<ConditionV>>::empty());
    while i < ks.len()
        invariant
            i <= ks.len(),
            dnf_view(out@) == conj_kinds(dnf_view(w@), views(ks@).take(i as int)),
        decreases ks.len() - i,
    {
        let ghost before = dnf_view(out@);
        let ghost k = ks@[i as int]@;
        if w.len() == 0 {
            let g = vec![kind_condition(&ks[i])];
            assert(group_view(g@) =~= seq![kind_cond(k)]);
            out.push(g);
            assert(dnf_view(out@) =~= before + conj_kind(dnf_view(w@), k));
        } else {
            let mut j: usize = 0;
            while j < w.len()
                invariant
                    i < ks.len(),
                    k == ks@[i as int]@,
                    j <= w.len(),
                    dnf_view(out@) == before + dnf_view(w@).take(j as int).map_values(
                        |g: Seq<ConditionV>| seq![kind_cond(k)] + g,
                    ),
                decreases w.len() - j,
            {
                let mut g: Vec<Condition> = vec![kind_condition(&ks[i])];
                let src = &w[j];
                let mut m: usize = 0;
                assert(group_view(g@) =~= seq![kind_cond(k)] + group_view(src@).take(0));
                while m < src.len()
                    invariant
                        m <= src.len(),
                        group_view(g@) == seq![kind_cond(k)] + group_view(src@).take(m as int),
                    decreases src.len() - m,
                {
                    let ghost gb = group_view(g@);
                    g.push(clone_condition(&src[m]));
                    assert(group_view(src@).take(m + 1) =~= group_view(src@).take(m as int).push(
                        src@[m as int].view(),
                    ));
                    assert(group_view(g@) =~= gb.push(src@[m as int].view()));
                    m += 1;
                }
                assert(group_view(src@).take(src.len() as int) =~= group_view(src@));
                let ghost prev = dnf_view(out@);
                out.push(g);
                assert(dnf_view(out@) =~= prev.push(seq![kind_cond(k)] + group_view(src@)));
                assert(dnf_view(w@).take(j + 1).map_values(|g: Seq<ConditionV>| seq![kind_cond(k)] + g)
                    =~= dnf_view(w@).take(j as int).map_values(|g: Seq<ConditionV>| seq![kind_cond(k)] + g).push(
                    seq![kind_cond(k)] + group_view(src@)));
                j += 1;
            }
            assert(dnf_view(w@).take(w.len() as int) =~= dnf_view(w@));
            assert(dnf_view(out@) =~= before + conj_kind(dnf_view(w@), k));
        }
        assert(views(ks@).take(i + 1).drop_last() =~= views(ks@).take(i as int));
        i += 1;
    }
    assert(views(ks@).take(ks.len() as int) =~= views(ks@));
    out
}

/// Parse the source clause (everything before the first "|").
pub fn parse_source(input: &str) -> (r: Result<Source, String>)
    ensures
        match r {
            Ok(s) => source_spec(input@) == Some(s.view()),
            Err(_) => source_spec(input@) is None,
        },
{
    let t = tokenize(input);
    if t.len() == 0 {
        return Err(owned("empty source clause"));
    }
    assert(views(t@)[0] == t@[0]@);
    proof {
        if t.len() > 1 {
            assert(views(t@)[1] == t@[1]@);
        }
    }
    let kw = t[0].as_str();
    if lower_is(kw, "symbols") {
        return parse_symbols_source(&t, None);
    }
    match SymbolKind::from_term(kw) {
        Ok(k) => return parse_symbols_source(&t, Some(k)),
        Err(_) => {},
    }
    if lower_is(kw, "symbol") {
        if t.len() < 2 {
            return Err(owned("'symbol' requires a name argument"));
        }
        let name = t[1].clone();
        return match parse_where_from_tokens(&t, 2) {
            Ok(where_clause) => Ok(Source::Symbol { name, where_clause }),
            Err(e) => Err(e),
        };
    }
    let is_deps = lower_is(kw, "deps");
    if is_deps || lower_is(kw, "refs") {
        let named = t.len() > 1 && !lower_is(t[1].as_str(), "where");
        let name = if named { Some(t[1].clone()) } else { None };
        let where_clause = match parse_where_from_tokens(&t, if named { 2 } else { 1 }) {
            Ok(w) => w,
            Err(e) => return Err(e),
        };
        return if is_deps {
            Ok(Source::Deps { name, where_clause })
        } else {
            Ok(Source::Refs { name, where_clause })
        };
    }
    match normalize_kind_filter(kw) {
        Some(ks) => {
            match parse_symbols_source(&t, None) {
                Ok(Source::Symbols { kind_filter, in_file, where_clause }) => {
                    let w = conjoin_kinds(&where_clause, &ks);
                    Ok(Source::Symbols { kind_filter, in_file, where_clause: w })
                },
                Ok(_) => Err(owned("unexpected source")),
                Err(e) => Err(e),
            }
        },
        None => {
            let mut m = owned("unknown source '");
            let l = to_lower(kw);
            push_str(&mut m, l.as_str());
            push_str(
                &mut m,
                "'. Expected: symbols, structs, functions, methods, traits, interfaces, enums, impls, consts, types, modules, a language's own kind (classes, records, ...), symbol, deps, refs",
            );
            Err(m)
        },
    }
}

// ---------------------------------------------------------------------------
// Queries and batches
// ---------------------------------------------------------------------------

/// Stages of the `|`-separated segments from position `i` on.
pub open spec fn stages_loop(segs: Seq<Seq<char>>, i: int, acc: Seq<StageV>) -> Option<Seq<StageV>>
    decreases segs.len() - i,
{
    if i < 0 || i >= segs.len() {
        Some(acc)
    } else {
        match stage_spec(trim(segs[i])) {
            Some(st) => stages_loop(segs, i + 1, acc.push(st)),
            None => None,
        }
    }
}

/// A single query: a source, then `|`-separated stages.
pub open spec fn query_spec(s: Seq<char>) -> Option<QueryV> {
    let segs = split_quotes_spec(s, '|');
    if segs.len() == 0 {
        None
    } else {
        match source_spec(trim(segs[0])) {
            Some(src) => match stages_loop(segs, 1, seq![]) {
                Some(st) => Some(QueryV { source: src, stages: st }),
                None => None,
            },
            None => None,
        }
    }
}

pub open spec fn queries_loop(parts: Seq<Seq<char>>, i: int, acc: Seq<QueryV>) -> Option<Seq<QueryV>>
    decreases parts.len() - i,
{
    if i < 0 || i >= parts.len() {
        Some(acc)
    } else {
        match query_spec(trim(parts[i])) {
            Some(q) => queries_loop(parts, i + 1, acc.push(q)),
            None => None,
        }
    }
}

/// A batch: the trimmed input split on `;` outside quotes, each part a query.
pub open spec fn parse_spec(input: Seq<char>) -> Option<Seq<QueryV>> {
    let t = trim(input);
    if t.len() == 0 {
        None
    } else {
        queries_loop(split_quotes_spec(t, ';'), 0, seq![])
    }
}

/// Parse a single query (no ";" separators).
pub fn parse_query(input: &str) -> (r: Result<Query, String>)
    ensures
        match r {
            Ok(q) => query_spec(input@) == Some(q.view()),
            Err(_) => query_spec(input@) is None,
        },
{
    let segs = split_respecting_quotes(input, '|');
    if segs.len() == 0 {
        return Err(owned("empty query"));
    }
    let ghost sv = views(segs@);
    assert(sv[0] == segs@[0]@);
    let s0 = trim_str(segs[0].as_str());
    let source = match parse_source(s0.as_str()) {
        Ok(s) => s,
        Err(e) => return Err(e),
    };
    let mut stages: Vec<Stage> = Vec::new();
    let mut i: usize = 1;
    assert(stages_view(stages@) =~= Seq::<StageV>::empty());
    while i < segs.len()
        invariant
            sv == views(segs@),
            sv == split_quotes_spec(input@, '|'),
            stages_loop(sv, i as int, stages_view(stages@)) == stages_loop(sv, 1, seq![]),
        decreases segs.len() - i,
    {
        assert(sv[i as int] == segs@[i as int]@);
        let s = trim_str(segs[i].as_str());
        match parse_stage(s.as_str()) {
            Ok(st) => {
                let ghost before = stages_view(stages@);
                stages.push(st);
                assert(stages_view(stages@) =~= before.push(st.view()));
            },
            Err(e) => return Err(e),
        }
        i += 1;
    }
    Ok(Query { source, stages })
}

/// Parse a query string into a Batch of queries.
pub fn parse(input: &str) -> (r: Result<Batch, String>)
    ensures
        match r {
            Ok(b) => parse_spec(input@) == Some(queries_view(b.queries@)),
            Err(_) => parse_spec(input@) is None,
        },
{
    let t = trim_str(input);
    let tc = chars_of(t.as_str());
    if tc.len() == 0 {
        return Err(owned("empty query"));
    }
    let parts = split_respecting_quotes(t.as_str(), ';');
    let ghost pv = views(parts@);
    let mut queries: Vec<Query> = Vec::new();
    let mut i: usize = 0;
    assert(queries_view(queries@) =~= Seq::<QueryV>::empty());
    while i < parts.len()
        invariant
            pv == views(parts@),
            pv == split_quotes_spec(trim(input@), ';'),
            queries_loop(pv, i as int, queries_view(queries@)) == queries_loop(pv, 0, seq![]),
        decreases parts.len() - i,
    {
        assert(pv[i as int] == parts@[i as int]@);
        let s = trim_str(parts[i].as_str());
        match parse_query(s.as_str()) {
            Ok(q) => {
                let ghost before = queries_view(queries@);
                queries.push(q);
                assert(queries_view(queries@) =~= before.push(q.view()));
            },
            Err(e) => return Err(e),
        }
        i += 1;
    }
    Ok(Batch { queries })
}

} // verus!

verus! {

/// Each operator word of the query language names its own operator, and
/// nothing else is an operator: `=`, `==`, `is` are equality; `!=`,
/// `is_not` inequality; `contains`, `has`, `includes`, `~` substring;
/// `>`, `<`, `>=`, `<=` the integer comparisons; `starts_with`,
/// `startswith` prefix; `ends_with`, `endswith` suffix.
#[verifier::spinoff_prover]
pub proof fn lemma_operator_words(s: Seq<char>)
    ensures
        parse_op_spec(s) == Some(Op::Eq) <==> (s == "="@ || s == "=="@ || s == "is"@),
        parse_op_spec(s) == Some(Op::NotEq) <==> (s == "!="@ || s == "is_not"@),
        parse_op_spec(s) == Some(Op::Contains) <==> (s == "contains"@ || s == "has"@ || s == "includes"@ || s == "~"@),
        parse_op_spec(s) == Some(Op::Gt) <==> s == ">"@,
        parse_op_spec(s) == Some(Op::Lt) <==> s == "<"@,
        parse_op_spec(s) == Some(Op::Gte) <==> s == ">="@,
        parse_op_spec(s) == Some(Op::Lte) <==> s == "<="@,
        parse_op_spec(s) == Some(Op::StartsWith) <==> (s == "starts_with"@ || s == "startswith"@),
        parse_op_spec(s) == Some(Op::EndsWith) <==> (s == "ends_with"@ || s == "endswith"@),
{
    reveal_strlit("=");
    reveal_strlit("==");
    reveal_strlit("is");
    reveal_strlit("!=");
    reveal_strlit("is_not");
    reveal_strlit("contains");
    reveal_strlit("has");
    reveal_strlit("includes");
    reveal_strlit("~");
    reveal_strlit(">");
    reveal_strlit("<");
    reveal_strlit(">=");
    reveal_strlit("<=");
    reveal_strlit("starts_with");
    reveal_strlit("startswith");
    reveal_strlit("ends_with");
    reveal_strlit("endswith");
    assert("="@.len() == 1);
    assert("=="@.len() == 2);
    assert("is"@.len() == 2);
    assert("!="@.len() == 2);
    assert("is_not"@.len() == 6);
    assert("contains"@.len() == 8);
    assert("has"@.len() == 3);
    assert("includes"@.len() == 8);
    assert("~"@.len() == 1);
    assert(">"@.len() == 1);
    assert("<"@.len() == 1);
    assert(">="@.len() == 2);
    assert("<="@.len() == 2);
    assert("starts_with"@.len() == 11);
    assert("startswith"@.len() == 10);
    assert("ends_with"@.len() == 9);
    assert("endswith"@.len() == 8);
    if s == "!="@ {
        assert("!="@[0] != "=="@[0]);
        assert("!="@[0] != "is"@[0]);
    }
    if s == "~"@ {
        assert("~"@[0] != "="@[0]);
    }
    if s == ">"@ {
        assert(">"@[0] != "="@[0]);
        assert(">"@[0] != "~"@[0]);
    }
    if s == "<"@ {
        assert("<"@[0] != "="@[0]);
        assert("<"@[0] != "~"@[0]);
        assert("<"@[0] != ">"@[0]);
    }
    if s == ">="@ {
        assert(">="@[0] != "=="@[0]);
        assert(">="@[0] != "is"@[0]);
        assert(">="@[0] != "!="@[0]);
    }
    if s == "<="@ {
        assert("<="@[0] != "=="@[0]);
        assert("<="@[0] != "is"@[0]);
        assert("<="@[0] != "!="@[0]);
        assert("<="@[0] != ">="@[0]);
    }
    if s == "endswith"@ {
        assert("endswith"@[0] != "contains"@[0]);
        assert("endswith"@[0] != "includes"@[0]);
    }
}

} // verus!
