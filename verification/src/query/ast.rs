//! AST for the smartgrep query DSL.
//!
//! Grammar (informal):
//!   batch       = query (";" query)*
//!   query       = source ("|" stage)*
//!   source      = source_kind [argument] [where_clause]
//!   source_kind = "symbols" | "structs" | "functions" | "methods" | "traits"
//!                | "enums" | "impls" | "consts" | "types" | "modules"
//!                | a language-native kind ("classes", "records", ...)
//!                | "symbol" <name> | "deps" [<name>] | "refs" [<name>]
//!   where_clause = "where" and_group ("or" and_group)*
//!   and_group   = condition ("and" condition)*
//!   condition   = field op value
//!   op          = "=" | "!=" | "contains" | ">" | "<" | ">=" | "<=" | ...
//!   value       = quoted_string | bare_word | number
//!   stage       = with_stage | show_stage | where_stage | sort_stage | limit_stage
//!   with_stage  = "with" enrichment ("," enrichment)*
//!   enrichment  = "fields" | "params" | "deps" | "refs" | "signature"
//!   show_stage  = "show" column ("," column)*
//!   where_stage = "where" and_group ("or" and_group)*
//!   sort_stage  = "sort" field ["asc"|"desc"]
//!   limit_stage = "limit" number

use vstd::prelude::*;

use crate::ir::types::SymbolKind;
use crate::text::parse_i64;

verus! {

/// A batch of one or more queries separated by ";".
#[derive(Debug, Clone, PartialEq)]
pub struct Batch {
    pub queries: Vec<Query>,
}

/// A single query: a source clause piped through zero or more stages.
#[derive(Debug, Clone, PartialEq)]
pub struct Query {
    pub source: Source,
    pub stages: Vec<Stage>,
}

/// The source clause determines what data to start with.
#[derive(Debug, Clone, PartialEq)]
pub enum Source {
    /// All symbols, optionally filtered by kind and by file.
    Symbols {
        kind_filter: Option<SymbolKind>,
        in_file: Option<String>,
        where_clause: Vec<Vec<Condition>>,
    },
    /// A specific symbol by name: "symbol Foo"
    Symbol { name: String, where_clause: Vec<Vec<Condition>> },
    /// Dependencies of a symbol: "deps Foo" or all deps: "deps"
    Deps { name: Option<String>, where_clause: Vec<Vec<Condition>> },
    /// References to a symbol: "refs Foo" or all refs: "refs"
    Refs { name: Option<String>, where_clause: Vec<Vec<Condition>> },
}

/// A pipeline stage that transforms query results.
#[derive(Debug, Clone, PartialEq)]
pub enum Stage {
    /// Enrich results with additional data: "with fields, deps"
    With { enrichments: Vec<Enrichment> },
    /// Select specific columns to show: "show name, file, kind"
    Show { columns: Vec<String> },
    /// Post-filter results: "where field_count > 5"
    Where { conditions: Vec<Vec<Condition>> },
    /// Sort results: "sort name asc"
    Sort { field: String, descending: bool },
    /// Limit results: "limit 10"
    Limit { count: usize },
}

/// An enrichment adds extra data to each result row.
#[derive(Debug, Clone, Copy, PartialEq, Eq, Structural)]
pub enum Enrichment {
    Fields,
    Params,
    Deps,
    Refs,
    Signature,
}

/// A filter condition: field op value.
#[derive(Debug, Clone, PartialEq)]
pub struct Condition {
    pub field: String,
    pub op: Op,
    pub value: Value,
}

/// Comparison operators.
#[derive(Debug, Clone, Copy, PartialEq, Eq, Structural)]
pub enum Op {
    Eq,
    NotEq,
    Contains,
    Gt,
    Lt,
    Gte,
    Lte,
    StartsWith,
    EndsWith,
}

/// A value in a condition.
#[derive(Debug, Clone, PartialEq)]
pub enum Value {
    String(String),
    Number(i64),
}

// ---------------------------------------------------------------------------
// Mathematical views
// ---------------------------------------------------------------------------

pub enum ValueV {
    Str(Seq<char>),
    Num(i64),
}

pub struct ConditionV {
    pub field: Seq<char>,
    pub op: Op,
    pub value: ValueV,
}

pub enum SourceV {
    Symbols {
        kind_filter: Option<SymbolKind>,
        in_file: Option<Seq<char>>,
        where_clause: Seq<Seq<ConditionV>>,
    },
    Symbol { name: Seq<char>, where_clause: Seq<Seq<ConditionV>> },
    Deps { name: Option<Seq<char>>, where_clause: Seq<Seq<ConditionV>> },
    Refs { name: Option<Seq<char>>, where_clause: Seq<Seq<ConditionV>> },
}

pub enum StageV {
    With { enrichments: Seq<Enrichment> },
    Show { columns: Seq<Seq<char>> },
    Where { conditions: Seq<Seq<ConditionV>> },
    Sort { field: Seq<char>, descending: bool },
    Limit { count: usize },
}

pub struct QueryV {
    pub source: SourceV,
    pub stages: Seq<StageV>,
}

pub open spec fn opt_view(o: Option<String>) -> Option<Seq<char>> {
    match o {
        Some(s) => Some(s@),
        None => None,
    }
}

impl Value {
    pub open spec fn view(&self) -> ValueV {
        match self {
            Value::String(s) => ValueV::Str(s@),
            Value::Number(n) => ValueV::Num(*n),
        }
    }
}

impl Condition {
    pub open spec fn view(&self) -> ConditionV {
        ConditionV { field: self.field@, op: self.op, value: self.value.view() }
    }
}

pub open spec fn group_view(g: Seq<Condition>) -> Seq<ConditionV> {
    g.map_values(|c: Condition| c.view())
}

pub open spec fn dnf_view(v: Seq<Vec<Condition>>) -> Seq<Seq<ConditionV>> {
    v.map_values(|g: Vec<Condition>| group_view(g@))
}

impl Source {
    pub open spec fn view(&self) -> SourceV {
        match self {
            Source::Symbols { kind_filter, in_file, where_clause } => SourceV::Symbols {
                kind_filter: *kind_filter,
                in_file: opt_view(*in_file),
                where_clause: dnf_view(where_clause@),
            },
            Source::Symbol { name, where_clause } => SourceV::Symbol {
                name: name@,
                where_clause: dnf_view(where_clause@),
            },
            Source::Deps { name, where_clause } => SourceV::Deps {
                name: opt_view(*name),
                where_clause: dnf_view(where_clause@),
            },
            Source::Refs { name, where_clause } => SourceV::Refs {
                name: opt_view(*name),
                where_clause: dnf_view(where_clause@),
            },
        }
    }
}

pub open spec fn strings_view(v: Seq<String>) -> Seq<Seq<char>> {
    v.map_values(|s: String| s@)
}

impl Stage {
    pub open spec fn view(&self) -> StageV {
        match self {
            Stage::With { enrichments } => StageV::With { enrichments: enrichments@ },
            Stage::Show { columns } => StageV::Show { columns: strings_view(columns@) },
            Stage::Where { conditions } => StageV::Where { conditions: dnf_view(conditions@) },
            Stage::Sort { field, descending } => StageV::Sort {
                field: field@,
                descending: *descending,
            },
            Stage::Limit { count } => StageV::Limit { count: *count },
        }
    }
}

pub open spec fn stages_view(v: Seq<Stage>) -> Seq<StageV> {
    v.map_values(|s: Stage| s.view())
}

impl Query {
    pub open spec fn view(&self) -> QueryV {
        QueryV { source: self.source.view(), stages: stages_view(self.stages@) }
    }
}

pub open spec fn queries_view(v: Seq<Query>) -> Seq<QueryV> {
    v.map_values(|q: Query| q.view())
}

// ---------------------------------------------------------------------------
// Value accessors
// ---------------------------------------------------------------------------

/// The text of a string value; empty for a number (use `as_number`).
pub open spec fn value_str(v: ValueV) -> Seq<char> {
    match v {
        ValueV::Str(s) => s,
        ValueV::Num(_) => seq![],
    }
}

/// The text a value compares as: a string's text, a number's decimal
/// rendering.
pub open spec fn value_text(v: ValueV) -> Seq<char> {
    match v {
        ValueV::Str(s) => s,
        ValueV::Num(n) => crate::text::signed_decimal(n as int),
    }
}

/// The number a value holds, or the number its text parses as.
pub open spec fn value_number(v: ValueV) -> Option<i64> {
    match v {
        ValueV::Num(n) => Some(n),
        ValueV::Str(s) => crate::text::parse_i64_spec(s),
    }
}

impl Value {
    pub fn as_str(&self) -> (r: &str)
        ensures
            r@ == value_str(self.view()),
    {
        match self {
            Value::String(s) => s.as_str(),
            Value::Number(_) => {
                proof {
                    reveal_strlit("");
                }
                ""
            },
        }
    }

    /// The text the value compares as (see [`value_text`]).
    pub fn text(&self) -> (r: String)
        ensures
            r@ == value_text(self.view()),
    {
        match self {
            Value::String(s) => s.clone(),
            Value::Number(n) => crate::text::i64_to_string(*n),
        }
    }

    pub fn as_number(&self) -> (r: Option<i64>)
        ensures
            r == value_number(self.view()),
    {
        match self {
            Value::Number(n) => Some(*n),
            Value::String(s) => parse_i64(s.as_str()),
        }
    }
}

} // verus!
