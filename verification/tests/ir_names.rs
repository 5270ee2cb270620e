use smartgrep::ir::kinds::{has_data_fields, is_callable_kind, is_function_kind, is_type_kind, kind_rank};
use smartgrep::ir::names::{dep_matches, dep_qualifier_key, dep_target_key, path_segments, strip_generics};

#[test]
fn classification() {
    for k in ["fn", "func", "function"] {
        assert!(is_function_kind(k));
        assert!(is_callable_kind(k));
        assert!(!is_type_kind(k));
    }
    assert!(is_callable_kind("method"));
    assert!(!is_function_kind("method"));
    assert!(is_type_kind("class"));
    assert!(is_type_kind("interface"));
    assert!(!is_type_kind("const"));
}

#[test]
fn types_rank_before_functions() {
    assert!(kind_rank("class") < kind_rank("const"));
    assert!(kind_rank("const") < kind_rank("fn"));
    assert!(kind_rank("struct") < kind_rank("interface"));
    assert!(kind_rank("function") < kind_rank("whatever"));
}

#[test]
fn kind_rank_exact_values() {
    assert_eq!(kind_rank("struct"), 0);
    assert_eq!(kind_rank("type"), 7);
    assert_eq!(kind_rank("const"), 20);
    assert_eq!(kind_rank("namespace"), 21);
    assert_eq!(kind_rank("func"), 30);
    assert_eq!(kind_rank("method"), 31);
    assert_eq!(kind_rank("impl"), 32);
    assert_eq!(kind_rank("def"), 40);
    assert!(has_data_fields("record"));
    assert!(!has_data_fields("enum"));
}

#[test]
fn key_is_last_segment_without_generics() {
    assert_eq!(dep_target_key("crate::index::types::Index"), "Index");
    assert_eq!(dep_target_key("Index"), "Index");
    assert_eq!(dep_target_key("fmt.Println"), "Println");
    assert_eq!(dep_target_key("Processor<String>"), "Processor");
    assert_eq!(dep_target_key("Repository<Map<K, V>>"), "Repository");
    assert_eq!(dep_target_key("Generic[T]"), "Generic");
    assert_eq!(dep_target_key("collect::<Vec<_>>"), "collect");
    assert_eq!(dep_target_key("Vec::<u8>::new"), "new");
    assert_eq!(dep_target_key("github.com/acme/app/models"), "models");
    assert_eq!(dep_target_key("./models"), "models");
    assert_eq!(dep_target_key("..x.y"), "y");
    assert_eq!(dep_target_key("crate::ir::types::*"), "types");
    assert_eq!(dep_target_key("crate::ir::{Symbol, Dep}"), "ir");
    assert_eq!(dep_target_key("x::y as z"), "y");
    assert_eq!(dep_target_key("&dyn Foo<T>"), "Foo");
    assert_eq!(dep_target_key(""), "");
}

#[test]
fn qualified_matching_is_segment_suffix() {
    assert!(dep_matches("crate::ir::types::Symbol::new", "Symbol::new"));
    assert!(dep_matches("Symbol::new", "Symbol::new"));
    assert!(!dep_matches("new", "Symbol::new"));
    assert!(!dep_matches("MySymbol::new", "Symbol::new"));
    assert!(dep_matches("std::fmt::Display", "fmt.Display"));
    assert!(dep_matches("Processor<String>", "Processor"));
}

#[test]
fn qualifier_key() {
    assert_eq!(dep_qualifier_key("User::new").as_deref(), Some("User"));
    assert_eq!(dep_qualifier_key("fmt.Println").as_deref(), Some("fmt"));
    assert_eq!(dep_qualifier_key("Vec::<u8>::new").as_deref(), Some("Vec"));
    assert_eq!(dep_qualifier_key("Self::new"), None);
    assert_eq!(dep_qualifier_key("new"), None);
}

#[test]
fn strip_generics_examples() {
    assert_eq!(strip_generics("Vec::<i32>::new"), "Vec::new");
    assert_eq!(strip_generics("collect::<T>"), "collect");
    assert_eq!(strip_generics("  Map<K, V> "), "Map");
    assert_eq!(strip_generics("a::::::b"), "a::b");
}

#[test]
fn path_segments_examples() {
    assert_eq!(path_segments("crate::ir::types::*"), vec!["crate", "ir", "types"]);
    assert_eq!(path_segments("./a/ b /.c"), vec!["a", "b", "c"]);
    assert!(path_segments("::").is_empty());
}
