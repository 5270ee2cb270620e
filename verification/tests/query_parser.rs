use smartgrep::ir::types::SymbolKind;
use smartgrep::lang::languages;
use smartgrep::query::ast::{Condition, Enrichment, Op, Source, Stage, Value};
use smartgrep::query::parser::{normalize_kind_filter, parse};

#[test]
fn parse_simple_structs() {
    let batch = parse("structs").unwrap();
    assert_eq!(batch.queries.len(), 1);
    let q = &batch.queries[0];
    assert_eq!(
        q.source,
        Source::Symbols {
            kind_filter: Some(SymbolKind::Struct),
            in_file: None,
            where_clause: vec![],
        }
    );
    assert!(q.stages.is_empty());
}

#[test]
fn parse_functions_with_where() {
    let batch = parse("functions where name = 'run' and file contains 'commands/'").unwrap();
    let q = &batch.queries[0];
    match &q.source {
        Source::Symbols { kind_filter, where_clause, .. } => {
            assert_eq!(*kind_filter, Some(SymbolKind::Function));
            assert_eq!(where_clause.len(), 1);
            assert_eq!(where_clause[0].len(), 2);
            assert_eq!(where_clause[0][0].field, "name");
            assert_eq!(where_clause[0][0].op, Op::Eq);
            assert_eq!(where_clause[0][0].value, Value::String("run".to_string()));
            assert_eq!(where_clause[0][1].field, "file");
            assert_eq!(where_clause[0][1].op, Op::Contains);
            assert_eq!(where_clause[0][1].value, Value::String("commands/".to_string()));
        }
        _ => panic!("expected Symbols source"),
    }
}

#[test]
fn parse_symbol_with_pipe() {
    let batch = parse("symbol SymbolKind | with deps, refs").unwrap();
    let q = &batch.queries[0];
    assert_eq!(
        q.source,
        Source::Symbol {
            name: "SymbolKind".to_string(),
            where_clause: vec![],
        }
    );
    assert_eq!(q.stages.len(), 1);
    match &q.stages[0] {
        Stage::With { enrichments } => {
            assert_eq!(enrichments.len(), 2);
            assert_eq!(enrichments[0], Enrichment::Deps);
            assert_eq!(enrichments[1], Enrichment::Refs);
        }
        _ => panic!("expected With stage"),
    }
}

#[test]
fn parse_symbols_in_file() {
    let batch = parse("symbols in 'src/ir/types.rs' | with deps").unwrap();
    let q = &batch.queries[0];
    match &q.source {
        Source::Symbols { in_file, .. } => {
            assert_eq!(in_file, &Some("src/ir/types.rs".to_string()));
        }
        _ => panic!("expected Symbols source"),
    }
}

#[test]
fn parse_deps_with_name() {
    let batch = parse("deps Config").unwrap();
    let q = &batch.queries[0];
    assert_eq!(
        q.source,
        Source::Deps {
            name: Some("Config".to_string()),
            where_clause: vec![],
        }
    );
}

#[test]
fn parse_refs_no_name_with_where() {
    let batch = parse("refs where kind = function").unwrap();
    let q = &batch.queries[0];
    match &q.source {
        Source::Refs { name, where_clause } => {
            assert!(name.is_none());
            assert_eq!(where_clause.len(), 1);
            assert_eq!(where_clause[0].len(), 1);
        }
        _ => panic!("expected Refs source"),
    }
}

#[test]
fn parse_batch_query() {
    let batch = parse("structs; functions where file contains 'commands/'").unwrap();
    assert_eq!(batch.queries.len(), 2);
}

#[test]
fn parse_post_filter_where() {
    let batch = parse("structs | with fields | where field_count > 5").unwrap();
    let q = &batch.queries[0];
    assert_eq!(q.stages.len(), 2);
    match &q.stages[1] {
        Stage::Where { conditions } => {
            assert_eq!(conditions.len(), 1);
            assert_eq!(conditions[0][0].field, "field_count");
            assert_eq!(conditions[0][0].op, Op::Gt);
            assert_eq!(conditions[0][0].value, Value::Number(5));
        }
        _ => panic!("expected Where stage"),
    }
}

#[test]
fn parse_show_stage() {
    let batch = parse("deps Config | show from, to, dep_kind").unwrap();
    let q = &batch.queries[0];
    match &q.stages[0] {
        Stage::Show { columns } => {
            assert_eq!(columns, &["from", "to", "dep_kind"]);
        }
        _ => panic!("expected Show stage"),
    }
}

#[test]
fn parse_sort_and_limit() {
    let batch = parse("structs | sort name asc | limit 10").unwrap();
    let q = &batch.queries[0];
    assert_eq!(q.stages.len(), 2);
    match &q.stages[0] {
        Stage::Sort { field, descending } => {
            assert_eq!(field, "name");
            assert!(!descending);
        }
        _ => panic!("expected Sort stage"),
    }
    match &q.stages[1] {
        Stage::Limit { count } => {
            assert_eq!(*count, 10);
        }
        _ => panic!("expected Limit stage"),
    }
}

#[test]
fn parse_show_signature() {
    let batch = parse("functions | show signature").unwrap();
    let q = &batch.queries[0];
    match &q.stages[0] {
        Stage::Show { columns } => {
            assert_eq!(columns, &["signature"]);
        }
        _ => panic!("expected Show stage"),
    }
}

#[test]
fn error_on_empty_query() {
    assert!(parse("").is_err());
}

#[test]
fn error_on_unknown_source() {
    assert!(parse("foobar").is_err());
}

#[test]
fn error_on_unknown_stage() {
    assert!(parse("structs | foobar").is_err());
}

#[test]
fn kinds_are_query_terms() {
    for l in languages() {
        for k in &l.kinds {
            assert_eq!(
                normalize_kind_filter(k),
                Some(vec![k.to_string()]),
                "{} kind '{}' is not a query term",
                l.name,
                k
            );
        }
    }
}

#[test]
fn native_kind_sources_filter_by_kind() {
    let batch = parse("classes where attributes contains '@RestController'").unwrap();
    match &batch.queries[0].source {
        Source::Symbols { kind_filter, where_clause, .. } => {
            assert_eq!(*kind_filter, None);
            assert_eq!(
                where_clause,
                &vec![vec![
                    Condition { field: "kind".to_string(), op: Op::Eq, value: Value::String("class".to_string()) },
                    Condition {
                        field: "attributes".to_string(),
                        op: Op::Contains,
                        value: Value::String("@RestController".to_string())
                    },
                ]]
            );
        }
        _ => panic!("expected Symbols source"),
    }
    assert_eq!(normalize_kind_filter("Functions"), Some(vec!["fn".into(), "func".into(), "function".into(), "def".into()]));
    assert_eq!(normalize_kind_filter("widgets"), None);
}

#[test]
fn parse_errors_each_kind() {
    assert!(parse("symbol").is_err());
    assert!(parse("structs in").is_err());
    assert!(parse("structs where name").is_err());
    assert!(parse("structs where name ?? x").is_err());
    assert!(parse("structs | with").is_err());
    assert!(parse("structs | with bogus").is_err());
    assert!(parse("structs | show").is_err());
    assert!(parse("structs | sort").is_err());
    assert!(parse("structs | limit x").is_err());
    assert!(parse("structs | limit").is_err());
    assert!(parse(";").is_err());
}

#[test]
fn or_groups_and_quotes() {
    let batch = parse("symbols where name = 'a;b' or name = c | sort line desc").unwrap();
    assert_eq!(batch.queries.len(), 1);
    match &batch.queries[0].source {
        Source::Symbols { where_clause, .. } => {
            assert_eq!(where_clause.len(), 2);
            assert_eq!(where_clause[0][0].value, Value::String("a;b".to_string()));
        }
        _ => panic!(),
    }
    assert_eq!(batch.queries[0].stages[0], Stage::Sort { field: "line".into(), descending: true });
}
