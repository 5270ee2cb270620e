use std::path::Path;

use smartgrep::lang::{
    is_in_skipped_dir, is_skip_dir, is_source_file, language_for_path, languages, project_markers,
    supported_extensions_display,
};
use smartgrep::paths::{extension_of, file_name_of, normalize, path_to_slash, to_slash_with};

#[test]
fn windows_separators_become_slashes() {
    assert_eq!(to_slash_with(r"src\ir\types.rs", '\\'), "src/ir/types.rs");
    assert_eq!(to_slash_with(r"C:\proj\src\main.rs", '\\'), "C:/proj/src/main.rs");
    assert_eq!(to_slash_with(r"src\ir/", '\\'), "src/ir/");
}

#[test]
fn slash_separator_is_identity() {
    assert_eq!(to_slash_with(r"src/a\b.rs", '/'), r"src/a\b.rs");
}

#[test]
fn native_paths_normalize() {
    let p = Path::new("src").join("ir").join("types.rs");
    assert_eq!(path_to_slash(p.to_str().unwrap()), "src/ir/types.rs");
    assert_eq!(normalize(p.to_str().unwrap()), "src/ir/types.rs");
}

#[test]
fn extensions_and_file_names() {
    assert_eq!(extension_of("a/b.rs").as_deref(), Some("rs"));
    assert_eq!(extension_of(".gitignore"), None);
    assert_eq!(extension_of("a/b.tar.gz").as_deref(), Some("gz"));
    assert_eq!(extension_of("a/.."), None);
    assert_eq!(file_name_of("a/b/").as_deref(), Some("b"));
    assert_eq!(file_name_of("/"), None);
}

#[test]
fn lookup_by_extension() {
    assert_eq!(language_for_path("a/b.rs").unwrap().name, "rust");
    assert_eq!(language_for_path("x.tsx").unwrap().name, "typescript");
    assert!(language_for_path("README.md").is_none());
    assert!(language_for_path("Makefile").is_none());
    assert!(is_source_file("pkg/a.pyi"));
}

#[test]
fn extensions_are_unique() {
    let mut seen = std::collections::HashSet::new();
    for l in languages() {
        for e in &l.extensions {
            assert!(seen.insert(*e), "extension {} registered twice", e);
        }
    }
}

#[test]
fn skip_dirs() {
    assert!(is_skip_dir("target"));
    assert!(is_skip_dir(".smartgrep"));
    assert!(is_skip_dir("node_modules"));
    assert!(!is_skip_dir("src"));
    assert!(is_in_skipped_dir("/p/node_modules/x/a.ts"));
    assert!(!is_in_skipped_dir("/p/src/target.rs"));
}

#[test]
fn registry_lists() {
    assert_eq!(supported_extensions_display(), ".rs, .java, .go, .ts, .tsx, .py, .pyi");
    let m = project_markers();
    assert_eq!(m[0], "Cargo.toml");
    assert_eq!(m.len(), 11);
}
