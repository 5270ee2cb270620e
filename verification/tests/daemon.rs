use smartgrep::daemon::server::idle_timeout_reached;
use smartgrep::daemon::client::{pid_path, ping, reply_output, socket_path, try_daemon};
use smartgrep::daemon::logger::{count_results, log_path, make_entry, read_last_n, LogEntry};
use smartgrep::daemon::logger::{lines_to_keep, MAX_LOG_ENTRIES};
use smartgrep::daemon::protocol::{Request, Response};
use smartgrep::daemon::server::{
    dispatch_request, log_entry_for, parse_for_context, reindex_summary, triggers_reindex, Dispatch,
};

#[test]
fn test_socket_path_deterministic() {
    let root = "/tmp/test-project";
    let p1 = socket_path(root);
    let p2 = socket_path(root);
    assert_eq!(p1, p2);
    assert!(p1.starts_with("/tmp/smartgrep-"));
    assert!(p1.ends_with(".sock"));
}

#[test]
fn socket_path_is_sha256_prefix() {
    assert_eq!(socket_path("/tmp/test-project"), "/tmp/smartgrep-b71e47fdd133d434.sock");
}

#[test]
fn test_pid_path() {
    let pid = pid_path("/tmp/test-project");
    assert!(pid.ends_with(".pid"));
    assert_eq!(pid, "/tmp/smartgrep-b71e47fdd133d434.pid");
}

#[test]
fn test_socket_path_differs_for_different_projects() {
    let p1 = socket_path("/tmp/project-a");
    let p2 = socket_path("/tmp/project-b");
    assert_ne!(p1, p2);
}

#[test]
fn test_try_daemon_no_daemon_flag() {
    let root = "/tmp/nonexistent-project";
    assert!(try_daemon(root, "ls", "", "text", true).is_none());
}

#[test]
fn try_daemon_builds_request() {
    let q = try_daemon("/tmp/p", "show", "Foo", "json", false).unwrap();
    assert_eq!(q.command, "show");
    assert_eq!(q.args, "Foo");
    assert_eq!(q.format, "json");
    let p = ping();
    assert_eq!(p.command, "ping");
    assert_eq!(p.args, "");
    assert_eq!(p.format, "text");
}

#[test]
fn reply_output_only_for_ok() {
    assert_eq!(reply_output(Response::ok("hello".to_string())), Some("hello".to_string()));
    assert_eq!(reply_output(Response::error("bad".to_string())), None);
}

#[test]
fn response_constructors() {
    let ok = Response::ok("hello".to_string());
    assert_eq!(ok.status, "ok");
    assert_eq!(ok.output.as_deref(), Some("hello"));
    assert!(ok.message.is_none());
    let err = Response::error("bad".to_string());
    assert_eq!(err.status, "error");
    assert_eq!(err.message.as_deref(), Some("bad"));
    assert!(err.output.is_none());
    let r = Request::new("ls", "functions", "text");
    assert_eq!(r.args, "functions");
    assert_eq!(Request::default_format(), "text");
}

#[test]
fn test_make_entry() {
    let entry = make_entry("ls", "functions", 5, 3);
    assert_eq!(entry.command, "ls");
    assert_eq!(entry.args, "functions");
    assert_eq!(entry.results, 5);
    assert_eq!(entry.duration_ms, 3);
    assert!(!entry.ts.is_empty());
}

fn entry(command: &str, args: &str, results: usize, duration_ms: u64) -> LogEntry {
    LogEntry {
        ts: "2024-01-02T03:04:05.678Z".to_string(),
        command: command.to_string(),
        args: args.to_string(),
        results,
        duration_ms,
    }
}

#[test]
fn test_read_last_n() {
    let mut entries = Vec::new();
    for i in 0..5 {
        entries.push(make_entry("ls", &format!("query-{}", i), i, 1));
    }
    let last3 = read_last_n(entries, 3);
    assert_eq!(last3.len(), 3);
    assert_eq!(last3[0].args, "query-2");
    assert_eq!(last3[2].args, "query-4");
}

#[test]
fn read_last_n_more_than_available() {
    let entries = vec![entry("ls", "a", 1, 1), entry("ls", "b", 1, 1)];
    let all = read_last_n(entries, 10);
    assert_eq!(all.len(), 2);
    assert_eq!(all[0].args, "a");
}

#[test]
fn test_count_results() {
    assert_eq!(count_results(""), 0);
    assert_eq!(count_results("No results."), 0);
    assert_eq!(count_results("No symbols found."), 0);
    assert_eq!(count_results("Struct  Foo  src/main.rs:10"), 1);
    assert_eq!(
        count_results("[paths] src/long/path/ = [P]\n\nStruct  Foo  [P]main.rs:10\nStruct  Bar  [P]lib.rs:20"),
        2
    );
}

#[test]
fn count_results_skips_query_headers() {
    assert_eq!(count_results("# Query 1\na\nb\n\n# Query 2\nc"), 3);
    assert_eq!(count_results("No references found for 'x'"), 0);
}

#[test]
fn log_path_is_under_project() {
    assert_eq!(log_path("/p"), "/p/.smartgrep/queries.log");
}

#[test]
fn log_is_cut_to_recent_half() {
    let small: Vec<String> = (0..MAX_LOG_ENTRIES).map(|i| i.to_string()).collect();
    assert!(lines_to_keep(small).is_none());
    let big: Vec<String> = (0..MAX_LOG_ENTRIES + 2).map(|i| i.to_string()).collect();
    let kept = lines_to_keep(big).unwrap();
    assert_eq!(kept.len(), (MAX_LOG_ENTRIES + 2) - (MAX_LOG_ENTRIES + 2) / 2);
    assert_eq!(kept[0], ((MAX_LOG_ENTRIES + 2) / 2).to_string());
}

fn server_index() -> smartgrep::index::types::Index {
    let source = "pub struct Foo {\n    pub x: i32,\n}\npub fn make() -> Foo { todo!() }\n";
    let ir = smartgrep::parser::parse_by_extension("src/lib.rs", source).unwrap();
    smartgrep::index::builder::build(&ir)
}

fn reply(d: smartgrep::daemon::server::Dispatch) -> Response {
    match d {
        smartgrep::daemon::server::Dispatch::Reply(r) => r,
        _ => panic!("expected a reply"),
    }
}

#[test]
fn dispatch_simple_commands() {
    let index = server_index();
    let r = reply(dispatch_request(&Request::new("ping", "", "text"), &index));
    assert_eq!(r.output.as_deref(), Some("pong"));
    match dispatch_request(&Request::new("shutdown", "", "text"), &index) {
        Dispatch::Shutdown(r) => assert_eq!(r.output.as_deref(), Some("shutting down")),
        _ => panic!("expected shutdown"),
    }
    assert!(matches!(dispatch_request(&Request::new("index", "", "text"), &index), Dispatch::Reindex));
    match dispatch_request(&Request::new("context", "src/lib.rs", "json"), &index) {
        Dispatch::Context { file, format } => {
            assert_eq!(file, "src/lib.rs");
            assert_eq!(format, "json");
        }
        _ => panic!("expected context"),
    }
    let r = reply(dispatch_request(&Request::new("frobnicate", "", "text"), &index));
    assert_eq!(r.status, "error");
    assert_eq!(r.message.as_deref(), Some("Unknown command: frobnicate"));
}

#[test]
fn dispatch_lookups() {
    let index = server_index();
    let r = reply(dispatch_request(&Request::new("show", "Nope", "text"), &index));
    assert_eq!(r.output.as_deref(), Some("No symbol found matching 'Nope'"));
    let r = reply(dispatch_request(&Request::new("refs", "Nope", "text"), &index));
    assert_eq!(r.output.as_deref(), Some("No references found for 'Nope'."));
    let r = reply(dispatch_request(&Request::new("ls", "structs", "text"), &index));
    assert_eq!(r.output.as_deref(), Some("struct  Foo  src/lib.rs:1"));
    let r = reply(dispatch_request(&Request::new("refs", "Foo", "text"), &index));
    assert_eq!(r.output.as_deref(), Some("type_ref  crate::make  src/lib.rs:4"));
    let r = reply(dispatch_request(&Request::new("deps", "make", "text"), &index));
    assert_eq!(r.output.as_deref(), Some("type_ref  Foo  src/lib.rs:4"));
    let r = reply(dispatch_request(&Request::new("query", "foobar", "text"), &index));
    assert_eq!(r.status, "error");
}

#[test]
fn reindex_summary_text() {
    let index = server_index();
    assert_eq!(
        reindex_summary(&index),
        format!("Indexed {} symbols, {} dependencies", index.symbols.len(), index.deps.len())
    );
}

#[test]
fn log_entries_skip_control_commands() {
    let resp = Response::ok("a\nb".to_string());
    assert!(log_entry_for(&Request::new("ping", "", "text"), &resp, 1).is_none());
    let e = log_entry_for(&Request::new("ls", "fn", "text"), &resp, 4).unwrap();
    assert_eq!(e.results, 2);
    assert_eq!(e.duration_ms, 4);
    assert_eq!(e.args, "fn");
}

#[test]
fn context_parser_by_extension() {
    let ir = parse_for_context("A.java", "public class A {}").unwrap();
    assert_eq!(ir.symbols[0].kind, "class");
    let ir = parse_for_context("src/a.rs", "pub fn f() {}").unwrap();
    assert_eq!(ir.symbols[0].kind, "fn");
}

#[test]
fn watcher_reacts_to_sources() {
    assert!(triggers_reindex(&vec!["/p/README.md".to_string(), "/p/src/a.rs".to_string()]));
    assert!(triggers_reindex(&vec!["/p/A.java".to_string()]));
    assert!(!triggers_reindex(&vec!["/p/a.py".to_string(), "/p/.git/index".to_string()]));
    assert!(!triggers_reindex(&vec![]));
}

#[test]
fn idle_timeout_boundary() {
    assert!(!idle_timeout_reached(1_799_999_999_999, 1800));
    assert!(idle_timeout_reached(1_800_000_000_000, 1800));
    assert!(idle_timeout_reached(0, 0));
}
