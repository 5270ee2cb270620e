use smartgrep::ir::types::{DepKind, Ir, Visibility};
use smartgrep::parser::go;
use smartgrep::parser::java;
use smartgrep::parser::python;
use smartgrep::parser::rust;
use smartgrep::parser::{parse_by_extension, parse_slash_path};
use smartgrep::paths::to_slash_with;

// ---- Go ----

#[test]
fn test_parse_simple_struct() {
    let source = "package main\n\ntype Foo struct { X int }";
    let ir = go::parse_file("foo.go", source).unwrap();
    let structs: Vec<_> = ir.symbols.iter().filter(|s| s.kind == "struct").collect();
    assert_eq!(structs.len(), 1);
    assert_eq!(structs[0].name, "Foo");
    assert_eq!(structs[0].visibility, Visibility::Public);
}

#[test]
fn go_test_parse_simple_function() {
    let source = "package main\n\nfunc Hello(name string) string { return name }";
    let ir = go::parse_file("foo.go", source).unwrap();
    let funcs: Vec<_> = ir.symbols.iter().filter(|s| s.kind == "func").collect();
    assert_eq!(funcs.len(), 1);
    assert_eq!(funcs[0].name, "Hello");
    assert_eq!(funcs[0].visibility, Visibility::Public);
}

#[test]
fn go_test_parse_interface() {
    let source = "package main\n\ntype Reader interface { Read(p []byte) (int, error) }";
    let ir = go::parse_file("foo.go", source).unwrap();
    let traits: Vec<_> = ir.symbols.iter().filter(|s| s.kind == "interface").collect();
    assert_eq!(traits.len(), 1);
    assert_eq!(traits[0].name, "Reader");
}

#[test]
fn test_private_visibility() {
    let source = "package main\n\nfunc helper() {}";
    let ir = go::parse_file("foo.go", source).unwrap();
    let f = ir.symbols.iter().find(|s| s.name == "helper").unwrap();
    assert_eq!(f.visibility, Visibility::Private);
}

#[test]
fn test_method_has_receiver() {
    let source = "package main\n\ntype Foo struct{}\nfunc (f *Foo) Bar() {}";
    let ir = go::parse_file("foo.go", source).unwrap();
    let bar = ir.symbols.iter().find(|s| s.name == "Bar").unwrap();
    assert_eq!(bar.kind, "method");
    assert_eq!(bar.parent.as_deref(), Some("Foo"));
}

#[test]
fn test_import_extraction() {
    let source = "package main\n\nimport \"fmt\"\n";
    let ir = go::parse_file("foo.go", source).unwrap();
    let imports: Vec<_> = ir.dependencies.iter().filter(|d| d.kind == DepKind::Import).collect();
    assert_eq!(imports.len(), 1);
    assert_eq!(imports[0].to_name, "fmt");
}

#[test]
fn test_const_extraction() {
    let source = "package main\n\nconst MaxSize = 1024";
    let ir = go::parse_file("foo.go", source).unwrap();
    let consts: Vec<_> = ir.symbols.iter().filter(|s| s.kind == "const").collect();
    assert_eq!(consts.len(), 1);
    assert_eq!(consts[0].name, "MaxSize");
    assert_eq!(consts[0].visibility, Visibility::Public);
}

#[test]
fn test_type_alias() {
    let source = "package main\n\ntype MyInt = int";
    let ir = go::parse_file("foo.go", source).unwrap();
    let aliases: Vec<_> = ir.symbols.iter().filter(|s| s.kind == "type").collect();
    assert_eq!(aliases.len(), 1);
    assert_eq!(aliases[0].name, "MyInt");
}

#[test]
fn test_qualified_name_uses_package() {
    let source = "package myapp\n\nfunc DoStuff() {}";
    let ir = go::parse_file("foo.go", source).unwrap();
    let f = ir.symbols.iter().find(|s| s.name == "DoStuff").unwrap();
    assert_eq!(f.qualified_name, "myapp.DoStuff");
}

#[test]
fn go_method_signature_and_embedded_fields() {
    let source = "package main\n\ntype Base struct{}\ntype Foo struct {\n\tBase\n\tName string\n}\nfunc (f *Foo) Get(k string) (string, error) { return k, nil }\n";
    let ir = go::parse_file("foo.go", source).unwrap();
    let foo = ir.symbols.iter().find(|s| s.name == "Foo").unwrap();
    assert_eq!(foo.fields.len(), 2);
    assert_eq!(foo.fields[1].name, "Name");
    assert_eq!(foo.fields[1].type_str, "string");
    let get = ir.symbols.iter().find(|s| s.name == "Get").unwrap();
    assert_eq!(get.qualified_name, "main.Foo.Get");
    assert_eq!(get.params.len(), 1);
    assert_eq!(get.params[0].name, "k");
}

// ---- Java ----

#[test]
fn test_package_prefix_from_path() {
    assert_eq!(java::package_prefix_from_path("src/main/java/com/example/Foo.java"), "com.example");
    assert_eq!(java::package_prefix_from_path("src/Foo.java"), "");
    assert_eq!(java::package_prefix_from_path("Foo.java"), "");
}

#[test]
fn test_parse_simple_class() {
    let source = "public class Foo { public int x; }";
    let ir = java::parse_file("Foo.java", source).unwrap();
    let classes: Vec<_> = ir.symbols.iter().filter(|s| s.kind == "class").collect();
    assert_eq!(classes.len(), 1);
    assert_eq!(classes[0].name, "Foo");
    assert_eq!(classes[0].visibility, Visibility::Public);
}

#[test]
fn java_test_parse_interface() {
    let source = "public interface Processor { void process(); }";
    let ir = java::parse_file("Processor.java", source).unwrap();
    let traits: Vec<_> = ir.symbols.iter().filter(|s| s.kind == "interface").collect();
    assert_eq!(traits.len(), 1);
    assert_eq!(traits[0].name, "Processor");
}

#[test]
fn test_parse_enum() {
    let source = "public enum Color { RED, GREEN, BLUE }";
    let ir = java::parse_file("Color.java", source).unwrap();
    let enums: Vec<_> = ir.symbols.iter().filter(|s| s.kind == "enum").collect();
    assert_eq!(enums.len(), 1);
    assert_eq!(enums[0].name, "Color");
}

#[test]
fn test_parse_import() {
    let source = "import java.util.List;\npublic class Foo {}";
    let ir = java::parse_file("Foo.java", source).unwrap();
    let imports: Vec<_> = ir.dependencies.iter().filter(|d| d.kind == DepKind::Import).collect();
    assert_eq!(imports.len(), 1);
    assert_eq!(imports[0].to_name, "java.util.List");
}

#[test]
fn test_package_used_as_prefix() {
    let source = "package com.example;\npublic class Foo {}";
    let ir = java::parse_file("Foo.java", source).unwrap();
    let foo = ir.symbols.iter().find(|s| s.name == "Foo").unwrap();
    assert_eq!(foo.qualified_name, "com.example.Foo");
}

#[test]
fn test_method_has_parent() {
    let source = "\npublic class Foo {\n    public void bar(int x) {}\n}\n";
    let ir = java::parse_file("Foo.java", source).unwrap();
    let bar = ir.symbols.iter().find(|s| s.name == "bar").unwrap();
    assert_eq!(bar.kind, "method");
    assert_eq!(bar.parent.as_deref(), Some("Foo"));
    assert_eq!(bar.params.len(), 1);
    assert_eq!(bar.params[0].name, "x");
}

#[test]
fn test_sealed_with_permits_records() {
    let source = "public sealed interface TripQuery permits TripQuery.Everything, TripQuery.ByStatus {\n    record Everything() implements TripQuery {}\n    record ByStatus(String status) implements TripQuery {}\n    static TripQuery everything() { return new Everything(); }\n}";
    let ir = java::parse_file("TripQuery.java", source).unwrap();
    let records: Vec<_> = ir.symbols.iter().filter(|s| s.kind == "record").collect();
    assert_eq!(records.len(), 2, "Should find both inner records");
    let names: Vec<&str> = records.iter().map(|s| s.name.as_str()).collect();
    assert!(names.contains(&"Everything"));
    assert!(names.contains(&"ByStatus"));
}

#[test]
fn test_sealed_interface_with_annotated_params() {
    let source = "package com.example;\n\nimport org.springframework.lang.NonNull;\n\npublic sealed interface TripPersistenceAction extends TripProvider {\n\n    record CreateTripAction(@NonNull Trip trip) implements TripPersistenceAction {\n    }\n\n    record UpdateTripAction(@NonNull Trip trip) implements TripPersistenceAction {\n    }\n\n    record DeleteTripAction(@NonNull Trip trip) implements TripPersistenceAction {\n    }\n}\n";
    let ir = java::parse_file("src/main/java/com/example/TripPersistenceAction.java", source).unwrap();
    let records: Vec<_> = ir.symbols.iter().filter(|s| s.kind == "record").collect();
    assert_eq!(records.len(), 3, "Should find all 3 inner records");
    let names: Vec<&str> = records.iter().map(|s| s.name.as_str()).collect();
    assert!(names.contains(&"CreateTripAction"));
    assert!(names.contains(&"UpdateTripAction"));
    assert!(names.contains(&"DeleteTripAction"));
}

#[test]
fn test_record_has_fields_and_params() {
    let source = "public record Point(int x, int y) {}";
    let ir = java::parse_file("Point.java", source).unwrap();
    let point = ir.symbols.iter().find(|s| s.name == "Point").unwrap();
    assert_eq!(point.kind, "record");
    assert_eq!(point.fields.len(), 2);
    assert_eq!(point.params.len(), 2);
    assert_eq!(point.fields[0].name, "x");
    assert_eq!(point.params[0].name, "x");
}

#[test]
fn java_extends_gives_dependency() {
    let source = "package a;\npublic class Foo extends Bar implements Baz {}\n";
    let ir = java::parse_file("Foo.java", source).unwrap();
    let names: Vec<&str> = ir.dependencies.iter().map(|d| d.to_name.as_str()).collect();
    assert!(names.contains(&"Bar"));
    assert!(names.contains(&"Baz"));
}

// ---- Rust ----

#[test]
fn test_module_prefix_from_path() {
    assert_eq!(rust::module_prefix_from_path("src/main.rs"), "crate");
    assert_eq!(rust::module_prefix_from_path("src/lib.rs"), "crate");
    assert_eq!(rust::module_prefix_from_path("src/parser/rust.rs"), "crate::parser::rust");
    assert_eq!(rust::module_prefix_from_path("src/ir/mod.rs"), "crate::ir");
}

#[test]
fn rust_test_parse_simple_function() {
    let source = "pub fn hello(x: i32) -> String { todo!() }";
    let ir = rust::parse_file("src/main.rs", source).unwrap();
    assert_eq!(ir.symbols.len(), 1);
    assert_eq!(ir.symbols[0].name, "hello");
    assert_eq!(ir.symbols[0].kind, "fn");
    assert_eq!(ir.symbols[0].visibility, Visibility::Public);
    assert_eq!(ir.symbols[0].params.len(), 1);
    assert_eq!(ir.symbols[0].params[0].name, "x");
}

#[test]
fn test_parse_struct_with_fields() {
    let source = "\npub struct Point {\n    pub x: f64,\n    pub y: f64,\n}\n";
    let ir = rust::parse_file("src/types.rs", source).unwrap();
    let structs: Vec<_> = ir.symbols.iter().filter(|s| s.kind == "struct").collect();
    assert_eq!(structs.len(), 1);
    assert_eq!(structs[0].name, "Point");
    assert_eq!(structs[0].fields.len(), 2);
    assert_eq!(structs[0].fields[0].name, "x");
}

#[test]
fn test_attributes_collected_from_siblings() {
    let source = "\n#[derive(Debug)]\npub struct Foo {\n    pub x: i32,\n}\n";
    let ir = rust::parse_file("src/main.rs", source).unwrap();
    let foo = ir.symbols.iter().find(|s| s.name == "Foo").expect("should find Foo");
    assert!(!foo.attributes.is_empty());
    assert!(foo.attributes[0].contains("derive"));
}

#[test]
fn rust_use_and_impl_methods() {
    let source = "use crate::ir::{Symbol, Dep};\npub struct S;\nimpl S {\n    pub fn new() -> Self { S }\n}\n";
    let ir = rust::parse_file("src/a.rs", source).unwrap();
    let names: Vec<&str> = ir.dependencies.iter().filter(|d| d.kind == DepKind::Import).map(|d| d.to_name.as_str()).collect();
    assert!(names.contains(&"crate::ir::Symbol"));
    assert!(names.contains(&"crate::ir::Dep"));
    let new = ir.symbols.iter().find(|s| s.name == "new").unwrap();
    assert_eq!(new.qualified_name, "crate::a::S::new");
    assert_eq!(new.parent.as_deref(), Some("S"));
}

// ---- Python ----

#[test]
fn module_paths() {
    assert_eq!(python::py_module_path("src/app/models/user.py"), "app.models.user");
    assert_eq!(python::py_module_path("pkg/__init__.py"), "pkg");
    assert_eq!(python::py_module_path("__init__.py"), "");
    assert_eq!(python::py_module_path("stubs/foo.pyi"), "stubs.foo");
    assert_eq!(python::py_module_path("main.py"), "main");
}

#[test]
fn constant_names() {
    assert!(python::is_constant_name("MAX"));
    assert!(python::is_constant_name("MAX_RETRIES_2"));
    assert!(python::is_constant_name("_PRIVATE"));
    assert!(!python::is_constant_name("T"));
    assert!(!python::is_constant_name("logger"));
    assert!(!python::is_constant_name("__all__"));
    assert!(!python::is_constant_name("MaxValue"));
    assert!(!python::is_constant_name("_"));
}

#[test]
fn visibility_rules() {
    assert_eq!(python::visibility("__init__"), Visibility::Public);
    assert_eq!(python::visibility("_x"), Visibility::Private);
    assert_eq!(python::visibility("__x"), Visibility::Private);
    assert_eq!(python::visibility("x"), Visibility::Public);
}

#[test]
fn relative_import_in_init_resolves_to_package() {
    let ir = python::parse_file("pkg/sub/__init__.py", "from . import a\nfrom .. import b\n").unwrap();
    let names: Vec<&str> = ir.dependencies.iter().map(|d| d.to_name.as_str()).collect();
    assert_eq!(names, vec!["pkg.sub.a", "pkg.b"]);
}

#[test]
fn relative_import_above_root_keeps_raw() {
    let ir = python::parse_file("mod.py", "from ..x import y\n").unwrap();
    assert_eq!(ir.dependencies[0].to_name, "..x.y");
}

#[test]
fn python_class_method_and_constant() {
    let source = "MAX = 3\n\nclass User(Base):\n    def save(self, force):\n        pass\n";
    let ir = python::parse_file("app/user.py", source).unwrap();
    let max = ir.symbols.iter().find(|s| s.name == "MAX").unwrap();
    assert_eq!(max.qualified_name, "app.user.MAX");
    let save = ir.symbols.iter().find(|s| s.name == "save").unwrap();
    assert_eq!(save.parent.as_deref(), Some("User"));
    assert_eq!(save.qualified_name, "app.user.User.save");
}

// ---- Dispatch by extension ----

fn assert_same_ir(unix_rel: &str, source: &str) -> Ir {
    let win_rel = unix_rel.replace('/', "\\");
    let from_win = parse_slash_path(&to_slash_with(&win_rel, '\\'), source).unwrap();
    let from_unix = parse_by_extension(unix_rel, source).unwrap();
    let key = |ir: &Ir| -> Vec<(String, String)> {
        ir.symbols.iter().map(|s| (s.qualified_name.clone(), s.loc.file.clone())).collect()
    };
    assert_eq!(key(&from_win), key(&from_unix));
    for s in &from_win.symbols {
        assert!(!s.loc.file.contains('\\'), "{:?}", s.loc.file);
        assert_eq!(s.loc.file, unix_rel);
    }
    from_win
}

fn qnames(ir: &Ir) -> Vec<String> {
    ir.symbols.iter().map(|s| s.qualified_name.clone()).collect()
}

#[test]
fn crlf_source_matches_lf() {
    let lf = "public class A {\n    @Override\n    public String name() { return \"a\"; }\n}\n";
    let crlf = lf.replace('\n', "\r\n");
    let a = parse_by_extension("A.java", lf).unwrap();
    let b = parse_by_extension("A.java", &crlf).unwrap();
    assert_eq!(format!("{:?}", a.symbols), format!("{:?}", b.symbols));
    assert!(!b.symbols.iter().any(|s| s.signature.as_deref().unwrap_or("").contains('\r')));
}

#[test]
fn rust_windows_path_gives_module_path() {
    let ir = assert_same_ir("src/ir/types.rs", "pub struct Symbol {}\n");
    assert!(qnames(&ir).contains(&"crate::ir::types::Symbol".to_string()), "{:?}", qnames(&ir));
}

#[test]
fn typescript_windows_path_gives_module_path() {
    let ir = assert_same_ir("src/models/user.ts", "export class User {}\n");
    assert!(qnames(&ir).iter().any(|q| q.starts_with("models.") && q.ends_with("User")), "{:?}", qnames(&ir));
}

#[test]
fn java_windows_path_without_package_gives_package() {
    let ir = assert_same_ir("src/main/java/com/example/User.java", "public class User {}\n");
    assert!(qnames(&ir).contains(&"com.example.User".to_string()), "{:?}", qnames(&ir));
}

#[test]
fn go_windows_path_is_normalized() {
    assert_same_ir("pkg/models/user.go", "package models\n\ntype User struct{}\n");
}

#[test]
fn python_windows_path_gives_module_path() {
    let ir = assert_same_ir("app/models/user.py", "class User:\n    pass\n");
    assert!(qnames(&ir).contains(&"app.models.user.User".to_string()), "{:?}", qnames(&ir));
}

#[test]
fn unsupported_extension_is_refused() {
    let err = parse_by_extension("README.md", "# hi\n").unwrap_err();
    assert!(err.starts_with("Unsupported file type '.md'"), "{}", err);
}

#[test]
fn typescript_interface_and_function() {
    let source = "export interface Shape { area(): number }\nexport function draw(s: Shape): void {}\n";
    let ir = parse_by_extension("src/draw.ts", source).unwrap();
    assert!(ir.symbols.iter().any(|s| s.name == "Shape" && s.kind == "interface"));
    let draw = ir.symbols.iter().find(|s| s.name == "draw").unwrap();
    assert_eq!(draw.kind, "function");
    assert_eq!(draw.params.len(), 1);
}
