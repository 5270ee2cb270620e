use smartgrep::index::builder::{build, type_deps, type_name_tokens};
use smartgrep::index::types::{Index, INDEX_VERSION};
use smartgrep::ir::types::DepKind;
use smartgrep::parser::parse_by_extension;
use smartgrep::query::engine::{execute_batch, execute_query, lex_compare, Row};
use smartgrep::query::parser::parse;

fn sample_index() -> Index {
    let source = "pub struct Foo {\n    pub x: i32,\n    pub bar: Bar,\n}\npub struct Bar;\npub fn make() -> Foo { todo!() }\n";
    let ir = parse_by_extension("src/lib.rs", source).unwrap();
    build(&ir)
}

#[test]
fn row_read_after_write() {
    let mut row = Row::new();
    row.set("a", "1".to_string());
    row.set("b", "2".to_string());
    row.set("a", "3".to_string());
    assert_eq!(row.get("a").map(|s| s.as_str()), Some("3"));
    assert_eq!(row.get("b").map(|s| s.as_str()), Some("2"));
    assert_eq!(row.get("c"), None);
    assert_eq!(row.fields.len(), 2);
    let copy = row.duplicate();
    assert_eq!(copy.fields, row.fields);
}

#[test]
fn lexicographic_order() {
    let v = |s: &str| s.chars().collect::<Vec<char>>();
    assert_eq!(lex_compare(&v("abc"), &v("abd")), -1);
    assert_eq!(lex_compare(&v("abc"), &v("abc")), 0);
    assert_eq!(lex_compare(&v("b"), &v("abc")), 1);
    assert_eq!(lex_compare(&v("ab"), &v("abc")), -1);
}

#[test]
fn build_keeps_symbols_and_derives_field_types() {
    let index = sample_index();
    assert_eq!(index.version, INDEX_VERSION);
    assert_eq!(index.symbols.len(), 3);
    assert_eq!(index.by_name("Foo").len(), 1);
    assert!(index
        .deps
        .iter()
        .any(|d| d.kind == DepKind::FieldType && d.from_qualified == "crate::Foo" && d.to_name == "Bar"));
}

#[test]
fn type_tokens_split_generics() {
    assert_eq!(type_name_tokens("Vec<Option<Foo>>"), vec!["Vec".to_string(), "Option".to_string(), "Foo".to_string()]);
}

#[test]
fn type_deps_from_return_types() {
    let index = sample_index();
    let derived = type_deps(&index.symbols);
    assert!(derived.iter().any(|d| d.kind == DepKind::TypeRef && d.from_qualified == "crate::make" && d.to_name == "Foo"));
}

#[test]
fn structs_query_rows() {
    let index = sample_index();
    let batch = parse("structs where name = 'Foo'").unwrap();
    let rows = execute_query(&batch.queries[0], &index).unwrap();
    assert_eq!(rows.len(), 1);
    assert_eq!(rows[0].get("name").map(|s| s.as_str()), Some("Foo"));
    assert_eq!(rows[0].get("kind").map(|s| s.as_str()), Some("struct"));
    assert_eq!(rows[0].get("field_count").map(|s| s.as_str()), Some("2"));
    assert_eq!(rows[0].get("line").map(|s| s.as_str()), Some("1"));
    assert_eq!(rows[0].get("visibility").map(|s| s.as_str()), Some("public"));
}

#[test]
fn empty_result_and_sections() {
    let index = sample_index();
    let none = parse("enums").unwrap();
    assert_eq!(execute_batch(&none, &index, "text").unwrap(), "No results.");
    let two = parse("structs | limit 1; enums").unwrap();
    let out = execute_batch(&two, &index, "text").unwrap();
    assert!(out.starts_with("# Query 1\n"), "{}", out);
    assert!(out.ends_with("\n\n# Query 2\nNo results."), "{}", out);
}

#[test]
fn sort_and_limit() {
    let index = sample_index();
    let batch = parse("structs | sort name asc | limit 1").unwrap();
    let rows = execute_query(&batch.queries[0], &index).unwrap();
    assert_eq!(rows.len(), 1);
    assert_eq!(rows[0].get("name").map(|s| s.as_str()), Some("Bar"));
}

#[test]
fn numeric_equality_compares_decimal_text() {
    let index = sample_index();
    let eq = parse("structs where field_count = 2").unwrap();
    let rows = execute_query(&eq.queries[0], &index).unwrap();
    assert_eq!(rows.len(), 1);
    assert_eq!(rows[0].get("name").map(|s| s.as_str()), Some("Foo"));
    let ne = parse("structs where field_count != 2").unwrap();
    let rows = execute_query(&ne.queries[0], &index).unwrap();
    assert_eq!(rows.len(), 1);
    assert_eq!(rows[0].get("name").map(|s| s.as_str()), Some("Bar"));
    let none = parse("structs where field_count = 3").unwrap();
    assert!(execute_query(&none.queries[0], &index).unwrap().is_empty());
}

#[test]
fn sort_keeps_equal_keys_in_order() {
    let index = sample_index();
    let batch = parse("structs | sort kind asc").unwrap();
    let rows = execute_query(&batch.queries[0], &index).unwrap();
    let names: Vec<&str> = rows.iter().map(|r| r.get("name").unwrap().as_str()).collect();
    assert_eq!(names, vec!["Foo", "Bar"]);
    let batch = parse("structs | sort field_count desc").unwrap();
    let rows = execute_query(&batch.queries[0], &index).unwrap();
    let names: Vec<&str> = rows.iter().map(|r| r.get("name").unwrap().as_str()).collect();
    assert_eq!(names, vec!["Foo", "Bar"]);
}

#[test]
fn lookup_tables_list_matching_indices() {
    let index = sample_index();
    let find = |t: &Vec<(String, Vec<usize>)>, k: &str| t.iter().find(|e| e.0 == k).map(|e| e.1.clone());
    let foo = index.symbols.iter().position(|s| s.name == "Foo").unwrap();
    assert_eq!(find(&index.name_lookup, "Foo"), Some(vec![foo]));
    assert_eq!(find(&index.name_lookup, "Nope"), None);
    let all: Vec<usize> = (0..index.symbols.len()).collect();
    assert_eq!(find(&index.file_lookup, "src/lib.rs"), Some(all));
    let q = index.qualified_lookup.iter().find(|e| e.0 == index.symbols[foo].qualified_name).map(|e| e.1);
    assert_eq!(q, Some(foo));
    let mut keys: Vec<&String> = index.name_lookup.iter().map(|e| &e.0).collect();
    let n = keys.len();
    keys.dedup();
    assert_eq!(keys.len(), n);
    for (k, ds) in &index.reverse_deps {
        for &d in ds {
            assert!(index.deps[d].to_name.ends_with(k.as_str()) || index.deps[d].to_name.contains(k.as_str()));
        }
    }
}

#[test]
fn python_def_gets_type_refs() {
    let source = "class User:\n    pass\n\ndef load(u: User) -> User:\n    return u\n";
    let ir = parse_by_extension("app/models.py", source).unwrap();
    let deps = type_deps(&ir.symbols);
    assert!(deps.iter().any(|d| d.to_name == "User" && d.kind == DepKind::TypeRef), "{:?}", deps);
}
