use smartgrep::format::path_alias::{compute_path_alias, compute_path_display, PathAlias, PathDisplay};

#[test]
fn test_single_file_display() {
    let paths = vec![
        "src/com/example/User.java",
        "src/com/example/User.java",
        "src/com/example/User.java",
    ];
    let display = compute_path_display(&paths).unwrap();
    match &display {
        PathDisplay::SingleFile { path } => {
            assert_eq!(path, "src/com/example/User.java");
        }
        _ => panic!("expected SingleFile"),
    }
    assert_eq!(display.header(), "# src/com/example/User.java");
    assert_eq!(display.format_loc("src/com/example/User.java", 10), ":10");
}

#[test]
fn test_single_unique_file() {
    let paths = vec!["src/com/example/User.java"];
    let display = compute_path_display(&paths).unwrap();
    assert!(matches!(display, PathDisplay::SingleFile { .. }));
}

#[test]
fn test_common_prefix_java_paths() {
    let paths = vec![
        "src/main/java/com/example/ecommerce/catalog/controller/ProductController.java",
        "src/main/java/com/example/ecommerce/catalog/service/InventoryService.java",
        "src/main/java/com/example/ecommerce/catalog/model/Order.java",
    ];
    let display = compute_path_display(&paths).unwrap();
    match &display {
        PathDisplay::Alias(alias) => {
            assert_eq!(alias.prefix, "src/main/java/com/example/ecommerce/catalog/");
            assert_eq!(alias.marker, "[P]");
        }
        _ => panic!("expected Alias"),
    }
    assert_eq!(display.header(), "[P] = src/main/java/com/example/ecommerce/catalog/");
}

#[test]
fn test_alias_format_loc() {
    let paths = vec![
        "src/main/java/com/example/ecommerce/catalog/controller/ProductController.java",
        "src/main/java/com/example/ecommerce/catalog/service/InventoryService.java",
    ];
    let display = compute_path_display(&paths).unwrap();
    assert_eq!(
        display.format_loc(
            "src/main/java/com/example/ecommerce/catalog/controller/ProductController.java",
            42
        ),
        "[P]controller/ProductController.java:42"
    );
}

#[test]
fn test_no_alias_short_prefix() {
    let paths = vec!["src/foo/a.rs", "src/foo/b.rs"];
    assert!(compute_path_display(&paths).is_none());
}

#[test]
fn test_shorten_replaces_prefix() {
    let alias = PathAlias {
        prefix: "src/main/java/com/example/ecommerce/catalog/".to_string(),
        marker: "[P]".to_string(),
    };
    assert_eq!(
        alias.shorten("src/main/java/com/example/ecommerce/catalog/controller/Foo.java"),
        "[P]controller/Foo.java"
    );
}

#[test]
fn test_shorten_no_match() {
    let alias = PathAlias {
        prefix: "src/main/java/com/example/".to_string(),
        marker: "[P]".to_string(),
    };
    assert_eq!(alias.shorten("other/path/Foo.java"), "other/path/Foo.java");
}

#[test]
fn test_header_format() {
    let alias = PathAlias {
        prefix: "src/main/java/com/example/ecommerce/catalog/".to_string(),
        marker: "[P]".to_string(),
    };
    assert_eq!(alias.header(), "[P] = src/main/java/com/example/ecommerce/catalog/");
}

#[test]
fn test_prefix_at_directory_boundary() {
    let paths = vec![
        "src/main/java/com/example/alpha/Foo.java",
        "src/main/java/com/example/beta/Bar.java",
    ];
    let alias = compute_path_alias(&paths).unwrap();
    assert_eq!(alias.prefix, "src/main/java/com/example/");
    assert!(alias.prefix.ends_with('/'));
}

#[test]
fn test_empty_paths() {
    let paths: Vec<&str> = vec![];
    assert!(compute_path_display(&paths).is_none());
}

#[test]
fn test_compute_path_alias_backwards_compat() {
    let paths = vec!["src/foo.rs", "src/foo.rs"];
    assert!(compute_path_alias(&paths).is_none());

    let paths = vec![
        "src/main/java/com/example/alpha/Foo.java",
        "src/main/java/com/example/beta/Bar.java",
    ];
    assert!(compute_path_alias(&paths).is_some());
}

#[test]
fn alias_shortens_files_outside_prefix_unchanged_in_loc() {
    let paths = vec![
        "src/main/java/com/example/alpha/Foo.java",
        "src/main/java/com/example/beta/Bar.java",
    ];
    let display = compute_path_display(&paths).unwrap();
    assert_eq!(display.format_loc("other/X.java", 3), "other/X.java:3");
    assert_eq!(display.shorten_file("src/main/java/com/example/alpha/Foo.java"), "[P]alpha/Foo.java");
}
