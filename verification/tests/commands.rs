use smartgrep::commands::init::{
    apply_block, gitignore_with_smartgrep, pick_examples, rel_display, render_block, BlockContext, END_MARKER, START_MARKER,
};
use smartgrep::commands::install_skill::{home_dir, skill_path};
use smartgrep::commands::log_cmd::{format_recent, format_stats};
use smartgrep::commands::log_direct;
use smartgrep::commands::ls;
use smartgrep::commands::map::is_generated;
use smartgrep::commands::refs;
use smartgrep::daemon::logger::LogEntry;
use smartgrep::format::OutputFormat;
use smartgrep::index::auto::{check_loaded, index_path, package_name_from, root_candidates};
use smartgrep::index::auto::{index_is_stale, index_source, IndexSource};
use smartgrep::index::builder::assemble;
use smartgrep::index::types::INDEX_VERSION;
use smartgrep::ir::types::{DepKind, Dependency, SourceLoc, Symbol, SymbolKind, Visibility};

// ---- install-skill ----

#[test]
fn home_prefers_home() {
    assert_eq!(
        home_dir(Some("/home/u".to_string()), Some(r"C:\Users\u".to_string())),
        Some("/home/u".to_string())
    );
}

#[test]
fn home_falls_back_to_userprofile() {
    assert_eq!(home_dir(None, Some(r"C:\Users\u".to_string())), Some(r"C:\Users\u".to_string()));
    assert_eq!(
        home_dir(Some(String::new()), Some(r"C:\Users\u".to_string())),
        Some(r"C:\Users\u".to_string())
    );
}

#[test]
fn home_missing() {
    assert_eq!(home_dir(None, None), None);
}

#[test]
fn skill_path_under_config_dir() {
    assert_eq!(skill_path("/home/u", ".assistant"), "/home/u/.assistant/skills/smartgrep/SKILL.md");
    assert_eq!(skill_path("", ".assistant"), ".assistant/skills/smartgrep/SKILL.md");
}

// ---- log ----

fn entry(command: &str, args: &str, results: usize, duration_ms: u64) -> LogEntry {
    LogEntry {
        ts: "2024-01-02T03:04:05.678Z".to_string(),
        command: command.to_string(),
        args: args.to_string(),
        results,
        duration_ms,
    }
}

#[test]
fn recent_empty_log() {
    assert_eq!(format_recent(&vec![]), vec!["No queries logged yet.".to_string()]);
    assert_eq!(format_stats(&vec![]), vec!["No queries logged yet.".to_string()]);
}

#[test]
fn recent_table_layout() {
    let lines = format_recent(&vec![entry("ls", "functions", 5, 3)]);
    assert_eq!(lines.len(), 3);
    assert_eq!(lines[0], format!("{:<20}  {:<7}  {:<9}  {:>7}  {:>6}", "TIMESTAMP", "COMMAND", "ARGS", "RESULTS", "MS"));
    assert_eq!(lines[1], "-".repeat(20 + 2 + 7 + 2 + 9 + 2 + 7 + 2 + 6));
    assert_eq!(lines[2], "2024-01-02T03:04:05.  ls       functions        5       3");
}

#[test]
fn recent_long_args_are_elided() {
    let long = "x".repeat(70);
    let lines = format_recent(&vec![entry("query", &long, 1, 1)]);
    assert!(lines[2].contains(&format!("{}...", "x".repeat(57))));
    assert!(!lines[2].contains(&"x".repeat(58)));
}

#[test]
fn recent_long_args_are_cut_by_bytes() {
    let long = format!("a{}", "é".repeat(40));
    let lines = format_recent(&vec![entry("query", &long, 1, 1)]);
    let kept = format!("{}...", &long[..57]);
    assert!(lines[2].contains(&kept), "{}", lines[2]);
    assert!(!lines[2].contains(&format!("a{}", "é".repeat(29))));
}

#[test]
fn stats_summary() {
    let entries = vec![entry("ls", "a", 2, 10), entry("ls", "a", 0, 20), entry("show", "Foo", 0, 5)];
    let lines = format_stats(&entries);
    let expected: Vec<String> = vec![
        "=== Query Log Statistics ===".to_string(),
        String::new(),
        "Total queries: 3".to_string(),
        String::new(),
        "Queries by command type:".to_string(),
        format!("  {:<10}  {:>5} queries  avg {:>4}ms", "ls", 2, 15),
        format!("  {:<10}  {:>5} queries  avg {:>4}ms", "show", 1, 5),
        String::new(),
        "Most queried arguments:".to_string(),
        "     2x  a".to_string(),
        "     1x  Foo".to_string(),
        String::new(),
        "Queries with 0 results (2 total):".to_string(),
        "     1x  ls a".to_string(),
        "     1x  show Foo".to_string(),
    ];
    assert_eq!(lines, expected);
}

#[test]
fn log_direct_counts_output_lines() {
    let (path, e) = log_direct("/p", "ls", "functions", "fn  a  x.rs:1\nfn  b  x.rs:2", 7);
    assert_eq!(path, "/p/.smartgrep/queries.log");
    assert_eq!(e.command, "ls");
    assert_eq!(e.args, "functions");
    assert_eq!(e.results, 2);
    assert_eq!(e.duration_ms, 7);
}

// ---- auto ----

#[test]
fn index_file_location() {
    assert_eq!(index_path("/p"), "/p/.smartgrep/index.json");
    assert_eq!(index_path("/p/"), "/p/.smartgrep/index.json");
}

#[test]
fn root_candidates_walk_up() {
    assert_eq!(root_candidates("/a/b", false), vec!["/a/b".to_string(), "/a".to_string(), "/".to_string()]);
    assert_eq!(root_candidates("/a/b/file.rs", true), vec!["/a/b".to_string(), "/a".to_string(), "/".to_string()]);
    assert!(root_candidates("/", true).is_empty());
}

#[test]
fn package_name_from_manifest() {
    let toml = "[dependencies]\nname = \"nope\"\n\n[package]\nname = \"demo\"\nversion = \"0.1.0\"\n";
    assert_eq!(package_name_from(toml), Some("demo".to_string()));
    assert_eq!(package_name_from("[package]\nversion = \"1\"\n"), None);
    assert_eq!(package_name_from("[package]\nname='x'\n"), Some("x".to_string()));
}

#[test]
fn loaded_index_version_check() {
    let good = assemble(INDEX_VERSION, vec![], vec![]);
    assert!(check_loaded(good).is_ok());
    let old = assemble(INDEX_VERSION - 1, vec![], vec![]);
    assert_eq!(check_loaded(old).unwrap_err(), "index version mismatch — re-indexing");
}

// ---- init ----

#[test]
fn apply_block_cases() {
    assert_eq!(apply_block(None, "B").unwrap(), "B\n");
    assert_eq!(apply_block(Some("  \n\n"), "B").unwrap(), "B\n");
    assert_eq!(apply_block(Some("intro\n\n"), "B").unwrap(), "intro\n\nB\n");
    let text = format!("a\n{}old{}\nz", START_MARKER, END_MARKER);
    assert_eq!(apply_block(Some(&text), "NEW").unwrap(), "a\nNEW\nz");
    let again = apply_block(Some(&apply_block(Some(&text), "NEW").unwrap()), "NEW");
    assert_eq!(again.unwrap(), "a\nNEW\nz\n\nNEW\n");
}

#[test]
fn apply_block_replaces_whole_block() {
    let block = format!("{}\nbody\n{}", START_MARKER, END_MARKER);
    let first = apply_block(Some("intro\n"), &block).unwrap();
    assert_eq!(first, format!("intro\n\n{}\n", block));
    assert_eq!(apply_block(Some(&first), &block).unwrap(), first);
}

#[test]
fn apply_block_malformed_markers() {
    let text = format!("{}x{}y{}", START_MARKER, END_MARKER, END_MARKER);
    let err = apply_block(Some(&text), "B").unwrap_err();
    assert!(err.starts_with("malformed smartgrep markers"), "{}", err);
    assert!(err.ends_with("found 1 start, 2 end)"), "{}", err);
    let reversed = format!("{}x{}", END_MARKER, START_MARKER);
    assert!(apply_block(Some(&reversed), "B").is_err());
}

#[test]
fn gitignore_cases() {
    assert_eq!(gitignore_with_smartgrep(None), Some(".smartgrep/\n".to_string()));
    assert_eq!(gitignore_with_smartgrep(Some("target")), Some("target\n.smartgrep/\n".to_string()));
    assert_eq!(gitignore_with_smartgrep(Some("target\n")), Some("target\n.smartgrep/\n".to_string()));
    assert_eq!(gitignore_with_smartgrep(Some("target\n  /.smartgrep/*  \n")), None);
    let once = gitignore_with_smartgrep(Some("target")).unwrap();
    assert_eq!(gitignore_with_smartgrep(Some(&once)), None);
}

#[test]
fn rel_display_uses_slashes() {
    assert_eq!(rel_display(r".assistant\skills\smartgrep\SKILL.md"), ".assistant/skills/smartgrep/SKILL.md");
}

// ---- map ----

#[test]
fn generated_paths() {
    assert!(is_generated("src/generated/a.rs"));
    assert!(is_generated("x/vendor/y.go"));
    assert!(is_generated("api/user.pb.go"));
    assert!(is_generated("src/bindings.rs"));
    assert!(is_generated("pkg/msg_pb2.py"));
    assert!(is_generated("src/MyGeneratedThing.java"));
    assert!(!is_generated("src/main.rs"));
}

// ---- ls / refs ----

fn sym(name: &str, kind: &str, file: &str, line: usize) -> Symbol {
    Symbol::new(
        name.to_string(),
        format!("crate::{}", name),
        kind.to_string(),
        SourceLoc { file: file.to_string(), line, col: 1 },
        Visibility::Public,
    )
}

#[test]
fn ls_kind_filter() {
    assert_eq!(ls::parse_kind_filter("structs"), Some(SymbolKind::Struct));
    assert_eq!(ls::parse_kind_filter("fn"), Some(SymbolKind::Function));
    assert_eq!(ls::parse_kind_filter("bogus"), None);
}

#[test]
fn ls_text_rows() {
    assert_eq!(ls::format_text(&[]), "No symbols found.");
    let a = sym("Foo", "struct", "src/a.rs", 3);
    let mut b = sym("run", "fn", "src/b.rs", 10);
    b.return_type = Some("bool".to_string());
    let out = ls::format_text(&[&a, &b]);
    assert_eq!(out, "struct  Foo  src/a.rs:3\nfn      run  src/b.rs:10  () bool");
}

#[test]
fn refs_text_rows() {
    let d = Dependency {
        from_qualified: "crate::main".to_string(),
        to_name: "Foo".to_string(),
        kind: DepKind::Call,
        loc: SourceLoc { file: "src/main.rs".to_string(), line: 4, col: 1 },
    };
    assert_eq!(refs::format_text(&[&d]), "# src/main.rs\n\ncall  crate::main  :4");
}

#[test]
fn output_format_names() {
    assert!(matches!(OutputFormat::from_name("JSON"), OutputFormat::Json));
    assert!(matches!(OutputFormat::from_name("text"), OutputFormat::Text));
    assert!(matches!(OutputFormat::from_name("yaml"), OutputFormat::Text));
}

#[test]
fn ls_selection_by_kind_and_path() {
    let index = assemble(
        INDEX_VERSION,
        vec![sym("A", "struct", "src/x/a.rs", 1), sym("f", "fn", "src/x/a.rs", 2), sym("B", "struct", "src/y/b.rs", 3)],
        vec![],
    );
    let names = |v: Vec<&Symbol>| v.iter().map(|s| s.name.clone()).collect::<Vec<_>>();
    assert_eq!(names(ls::select(&index, Some("structs"), None)), vec!["A", "B"]);
    assert_eq!(names(ls::select(&index, Some("structs"), Some("src/y"))), vec!["B"]);
    assert_eq!(names(ls::select(&index, None, Some("x/"))), vec!["A", "f"]);
    assert_eq!(names(ls::select(&index, Some("bogus"), None)), vec!["A", "f", "B"]);
    assert_eq!(ls::ls_args(Some("fn"), Some("src/")), "fn --in src/");
    assert_eq!(ls::ls_args(None, Some("src/")), " --in src/");
    assert_eq!(ls::ls_args(Some("fn"), None), "fn");
}

#[test]
fn rendered_block_is_framed_and_reapplies_unchanged() {
    let source = "pub struct Foo {\n    pub x: i32,\n}\npub fn make() -> Foo { todo!() }\n";
    let ir = smartgrep::parser::parse_by_extension("src/lib.rs", source).unwrap();
    let index = smartgrep::index::builder::build(&ir);
    let langs: Vec<_> = smartgrep::lang::languages().into_iter().filter(|l| l.name == "rust").collect();
    let ctx = BlockContext {
        languages: langs,
        total_files: 1,
        examples: pick_examples(&index),
        skill_path: Some(".assistant/skills/smartgrep/SKILL.md".to_string()),
    };
    let block = render_block(&ctx);
    assert!(block.starts_with(START_MARKER));
    assert!(block.ends_with(END_MARKER));
    assert_eq!(block.matches(START_MARKER).count(), 1);
    assert_eq!(block.matches(END_MARKER).count(), 1);
    for existing in [None, Some("# Notes\n\nkeep me\n")] {
        let once = apply_block(existing, &block).unwrap();
        assert_eq!(apply_block(Some(&once), &block).unwrap(), once);
    }
}

#[test]
fn staleness_and_index_source() {
    assert!(index_is_stale(None, &vec![]));
    assert!(!index_is_stale(Some(10), &vec![Some(5), None, Some(10)]));
    assert!(index_is_stale(Some(10), &vec![Some(5), Some(11)]));
    assert!(!index_is_stale(Some(10), &vec![]));
    assert_eq!(index_source(true, false, true), IndexSource::Stored);
    assert_eq!(index_source(true, true, true), IndexSource::Rebuild);
    assert_eq!(index_source(false, false, true), IndexSource::Rebuild);
    assert_eq!(index_source(true, false, false), IndexSource::Rebuild);
}

fn map_sym(name: &str, qualified: &str, kind: &str, file: &str, vis: Visibility) -> Symbol {
    Symbol::new(
        name.to_string(),
        qualified.to_string(),
        kind.to_string(),
        SourceLoc { file: file.to_string(), line: 1, col: 1 },
        vis,
    )
}

fn map_index() -> smartgrep::index::types::Index {
    let symbols = vec![
        map_sym("Foo", "crate::ir::types::Foo", "struct", "src/ir/types.rs", Visibility::Public),
        map_sym("make", "crate::ir::types::make", "fn", "src/ir/types.rs", Visibility::Public),
        map_sym("helper", "crate::ir::types::helper", "fn", "src/ir/types.rs", Visibility::Private),
        map_sym("run", "crate::run", "fn", "src/main.rs", Visibility::Public),
        map_sym("Bar", "crate::Bar", "struct", "src/main.rs", Visibility::Crate),
        map_sym("Bar", "crate::Bar", "impl", "src/main.rs", Visibility::Public),
        map_sym("gen", "crate::generated::x::gen", "fn", "src/generated/x.rs", Visibility::Public),
    ];
    let deps = vec![Dependency {
        from_qualified: "crate::run".to_string(),
        to_name: "crate::ir::types::Foo".to_string(),
        kind: DepKind::Import,
        loc: SourceLoc { file: "src/main.rs".to_string(), line: 1, col: 1 },
    }];
    assemble(INDEX_VERSION, symbols, deps)
}

#[test]
fn map_summary_lists_directories_with_counts_and_arrows() {
    let out = smartgrep::commands::map::map_output(&map_index(), None, false, None, false, false);
    assert_eq!(
        out,
        "2 files · 4 symbols  (1 generated excluded — use --include-generated to show)\n\n\
         src/ir/  1 file  struct×1  fn×1\n\
         src/     1 file  struct×1  fn×1    → src/ir"
    );
}

#[test]
fn map_symbols_mode_at_depth_one() {
    let out = smartgrep::commands::map::map_output(&map_index(), None, false, Some(1), false, true);
    assert_eq!(
        out,
        "2 files · 4 symbols  (1 generated excluded — use --include-generated to show)\n\n\
         src/\n  ir/types.rs  struct Foo, make\n  main.rs      struct Bar, run"
    );
}

#[test]
fn map_filters_by_path_and_visibility() {
    let index = map_index();
    let out = smartgrep::commands::map::map_output(&index, Some("main"), false, None, false, true);
    assert_eq!(out, "1 files · 2 symbols\n\nsrc/\n  main.rs  struct Bar, run");
    let all = smartgrep::commands::map::map_output(&index, Some("types"), true, None, false, true);
    assert_eq!(all, "1 files · 3 symbols\n\nsrc/ir/\n  types.rs  struct Foo, helper, make");
    let gen = smartgrep::commands::map::map_output(&index, Some("generated"), false, None, true, false);
    assert_eq!(gen, "1 files · 1 symbols\n\nsrc/generated/  1 file  fn×1");
    let none = smartgrep::commands::map::map_output(&index, Some("nowhere"), false, None, false, false);
    assert_eq!(none, "0 files · 0 symbols");
}

#[test]
fn map_dirs_for_json() {
    let dirs = smartgrep::commands::map::map_dirs(&map_index(), None, false, None, false);
    assert_eq!(dirs.len(), 2);
    assert_eq!(dirs[0].dir, "src/ir");
    assert_eq!(dirs[0].files, 1);
    let counts: Vec<(&str, usize)> = dirs[0].symbols.iter().map(|c| (c.kind.as_str(), c.count)).collect();
    assert_eq!(counts, vec![("struct", 1), ("fn", 1)]);
    assert!(dirs[0].outgoing.is_empty());
    assert_eq!(dirs[0].file_list[0].file, "src/ir/types.rs");
    let syms: Vec<(&str, &str)> =
        dirs[0].file_list[0].symbols.iter().map(|s| (s.name.as_str(), s.kind.as_str())).collect();
    assert_eq!(syms, vec![("Foo", "struct"), ("make", "fn")]);
    assert_eq!(dirs[1].dir, "src");
    assert_eq!(dirs[1].outgoing, vec!["src/ir".to_string()]);
}

#[test]
fn map_splits_module_paths_on_double_colons() {
    let parts = smartgrep::commands::map::split_colons_exec("a:::b::c");
    assert_eq!(parts, vec!["a".to_string(), ":b".to_string(), "c".to_string()]);
    assert_eq!(smartgrep::commands::map::split_colons_exec(""), vec!["".to_string()]);
}
