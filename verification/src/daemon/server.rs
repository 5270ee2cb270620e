//! The daemon's request dispatch against its in-memory index. Commands that
//! need the file system (parsing a file, re-indexing) or a serializer are
//! handed back to the caller as a [`Dispatch`] to carry out.

use vstd::prelude::*;

use crate::commands::deps::{collect_deps, group_view, groups_spec, groups_view, DepsGroup};
use crate::commands::ls::parse_kind_filter;
use crate::commands::refs::{dep_files, dep_froms, dep_kinds};
use crate::commands::show::show_text;
use crate::daemon::logger::{count_results, count_results_spec, make_entry, LogEntry};
use crate::daemon::protocol::{Request, Response};
use crate::format::text::{display_name, display_name_spec, kinds_of, max_byte_len, names_of};
use crate::index::types::{
    deps_seq, refs_pred, symbols_named, symbols_of_kinds, syms, Index,
};
use crate::ir::types::{dep_kind_name, native_kinds, symbol_kind_of_term, Dependency, Symbol};
use crate::query::engine::batch_output;
use crate::text::{
    byte_len_exec, decimal, join, join_strings, lowercase, owned, pad, pad_right, push_str,
    str_eq, usize_to_string, views,
};

verus! {

/// What the daemon does with a request.
pub enum Dispatch<'a> {
    /// Send this response.
    Reply(Response),
    /// Send this response, then shut down.
    Shutdown(Response),
    /// Parse the file (relative to the project root) and send its symbols in
    /// the format.
    Context { file: String, format: String },
    /// Rebuild the index, then send a summary.
    Reindex,
    /// Send these symbols as JSON.
    SymbolsJson(Vec<&'a Symbol>),
}

/// The output of a successful response.
pub open spec fn ok_output(resp: Response) -> Option<Seq<char>> {
    if resp.status@ == "ok"@ {
        match resp.output {
            Some(o) => Some(o@),
            None => None,
        }
    } else {
        None
    }
}

/// The message of a failed response.
pub open spec fn error_message(resp: Response) -> Option<Seq<char>> {
    if resp.status@ == "error"@ {
        match resp.message {
            Some(m) => Some(m@),
            None => None,
        }
    } else {
        None
    }
}

/// The output of a successful reply.
pub open spec fn reply_text(d: Dispatch) -> Option<Seq<char>> {
    match d {
        Dispatch::Reply(resp) => ok_output(resp),
        _ => None,
    }
}

/// The message of a failed reply.
pub open spec fn reply_error(d: Dispatch) -> Option<Seq<char>> {
    match d {
        Dispatch::Reply(resp) => error_message(resp),
        _ => None,
    }
}

/// One line of the daemon's `ls` listing.
pub open spec fn ls_plain_line(s: Symbol, kw: nat, nw: nat) -> Seq<char> {
    pad_right(s.kind@, kw) + "  "@ + pad_right(display_name_spec(s), nw) + "  "@ + s.loc.file@ + ":"@
        + decimal(s.loc.line as nat)
}

/// The daemon's `ls` listing: aligned kind, name and location, one symbol
/// per line; `No symbols found.` when there are none.
pub open spec fn ls_plain_text(ss: Seq<Symbol>) -> Seq<char> {
    if ss.len() == 0 {
        "No symbols found."@
    } else {
        let kw = max_byte_len(kinds_of(ss));
        let nw = max_byte_len(names_of(ss));
        join(ss.map_values(|s: Symbol| ls_plain_line(s, kw, nw)), "\n"@)
    }
}

fn format_ls_text(symbols: &Vec<&Symbol>) -> (r: String)
    ensures
        r@ == ls_plain_text(syms(symbols@)),
{
    let ghost ss = syms(symbols@);
    let n = symbols.len();
    if n == 0 {
        return owned("No symbols found.");
    }
    let mut kw: usize = 0;
    let mut nw: usize = 0;
    let mut i: usize = 0;
    while i < n
        invariant
            i <= n,
            n == symbols@.len(),
            ss == syms(symbols@),
            kw as nat == max_byte_len(kinds_of(ss).take(i as int)),
            nw as nat == max_byte_len(names_of(ss).take(i as int)),
        decreases n - i,
    {
        proof {
            crate::text::lemma_take_push(kinds_of(ss), i as int);
            crate::text::lemma_take_push(names_of(ss), i as int);
        }
        let s = symbols[i];
        assert(ss[i as int] == *s);
        let kl = byte_len_exec(s.kind.as_str());
        if kl > kw {
            kw = kl;
        }
        let dn = display_name(s);
        let nl = byte_len_exec(dn.as_str());
        if nl > nw {
            nw = nl;
        }
        i += 1;
    }
    assert(kinds_of(ss).take(n as int) =~= kinds_of(ss));
    assert(names_of(ss).take(n as int) =~= names_of(ss));
    let ghost f = |s: Symbol| ls_plain_line(s, kw as nat, nw as nat);
    let mut lines: Vec<String> = Vec::new();
    let mut i: usize = 0;
    while i < n
        invariant
            i <= n,
            n == symbols@.len(),
            ss == syms(symbols@),
            f == (|s: Symbol| ls_plain_line(s, kw as nat, nw as nat)),
            views(lines@) == ss.take(i as int).map_values(f),
        decreases n - i,
    {
        let s = symbols[i];
        assert(ss[i as int] == *s);
        let dn = display_name(s);
        let mut line = pad(s.kind.as_str(), kw);
        push_str(&mut line, "  ");
        let pn = pad(dn.as_str(), nw);
        push_str(&mut line, pn.as_str());
        push_str(&mut line, "  ");
        push_str(&mut line, s.loc.file.as_str());
        push_str(&mut line, ":");
        let ln = usize_to_string(s.loc.line);
        push_str(&mut line, ln.as_str());
        let ghost before = views(lines@);
        lines.push(line);
        assert(views(lines@) =~= before.push(f(ss[i as int])));
        assert(ss.take(i + 1).map_values(f) =~= ss.take(i as int).map_values(f).push(f(ss[i as int])));
        i += 1;
    }
    assert(ss.take(n as int) =~= ss);
    join_strings(&lines, "\n")
}

/// The symbols the daemon's `ls` lists for an argument: all of them for an
/// empty argument or one that names no kind, else those of the kind.
pub open spec fn ls_symbols(args: Seq<char>, ss: Seq<Symbol>) -> Seq<Symbol> {
    if args.len() == 0 {
        ss
    } else {
        match symbol_kind_of_term(lowercase(args)) {
            Some(k) => symbols_of_kinds(ss, native_kinds(k)),
            None => ss,
        }
    }
}


fn dispatch_ls<'a>(args: &str, format: &str, index: &'a Index) -> (r: Dispatch<'a>)
    ensures
        lowercase(format@) == "json"@ ==> (r matches Dispatch::SymbolsJson(v) && syms(v@) == ls_symbols(args@, index.symbols@)),
        lowercase(format@) != "json"@ ==> reply_text(r) == Some(ls_plain_text(ls_symbols(args@, index.symbols@))),
{
    let kind_filter = if crate::text::chars_of(args).len() == 0 {
        None
    } else {
        parse_kind_filter(args)
    };
    let symbols = match kind_filter {
        Some(k) => {
            let ks = k.native_kinds();
            index.by_kinds(&ks)
        },
        None => index.all_symbols(),
    };
    match crate::format::OutputFormat::from_name(format) {
        crate::format::OutputFormat::Json => Dispatch::SymbolsJson(symbols),
        crate::format::OutputFormat::Text => Dispatch::Reply(Response::ok(format_ls_text(&symbols))),
    }
}

fn not_found(prefix: &str, name: &str, suffix: &str) -> (r: String)
    ensures
        r@ == prefix@ + name@ + suffix@,
{
    let mut r = owned(prefix);
    push_str(&mut r, name);
    push_str(&mut r, suffix);
    r
}

fn dispatch_show(args: &str, index: &Index) -> (r: Response)
    ensures
        ok_output(r) == Some(
            if symbols_named(index.symbols@, args@).len() == 0 {
                "No symbol found matching '"@ + args@ + "'"@
            } else {
                show_text(symbols_named(index.symbols@, args@))
            },
        ),
{
    let symbols = index.by_name(args);
    if symbols.len() == 0 {
        return Response::ok(not_found("No symbol found matching '", args, "'"));
    }
    Response::ok(crate::commands::show::format_text(symbols.as_slice()))
}

/// One dependency line of the daemon's plain listings.
pub open spec fn plain_dep_line(d: Dependency, name: Seq<char>) -> Seq<char> {
    dep_kind_name(d.kind) + "  "@ + name + "  "@ + d.loc.file@ + ":"@ + decimal(d.loc.line as nat)
}

pub open spec fn plain_dep_lines(ds: Seq<Dependency>) -> Seq<Seq<char>> {
    ds.map_values(|d: Dependency| plain_dep_line(d, d.to_name@))
}

pub open spec fn plain_ref_lines(ds: Seq<Dependency>) -> Seq<Seq<char>> {
    ds.map_values(|d: Dependency| plain_dep_line(d, d.from_qualified@))
}

/// A group's lines in the daemon's `deps` output.
pub open spec fn plain_group_lines(g: (Seq<char>, Seq<Dependency>), multiple: bool) -> Seq<Seq<char>> {
    (if multiple {
        seq!["# "@ + g.0]
    } else {
        seq![]
    }) + if g.1.len() == 0 {
        if multiple {
            seq!["  (no dependencies)"@]
        } else {
            seq!["No dependencies found."@]
        }
    } else {
        plain_dep_lines(g.1)
    }
}

pub open spec fn plain_groups_lines(gs: Seq<(Seq<char>, Seq<Dependency>)>, multiple: bool) -> Seq<Seq<char>>
    decreases gs.len(),
{
    if gs.len() == 0 {
        seq![]
    } else {
        plain_groups_lines(gs.drop_last(), multiple) + plain_group_lines(gs.last(), multiple)
    }
}

fn push_line(lines: &mut Vec<String>, s: String)
    ensures
        views(final(lines)@) == views(old(lines)@).push(s@),
{
    let ghost before = views(lines@);
    lines.push(s);
    assert(views(lines@) =~= before.push(s@));
}

fn plain_dep(d: &Dependency, name: &str) -> (r: String)
    ensures
        r@ == plain_dep_line(*d, name@),
{
    let mut line = owned(d.kind.name());
    push_str(&mut line, "  ");
    push_str(&mut line, name);
    push_str(&mut line, "  ");
    push_str(&mut line, d.loc.file.as_str());
    push_str(&mut line, ":");
    let ln = usize_to_string(d.loc.line);
    push_str(&mut line, ln.as_str());
    line
}

/// The daemon's `deps` answer: what the named symbols depend on.
pub open spec fn deps_reply(args: Seq<char>, ss: Seq<Symbol>, ds: Seq<Dependency>) -> Seq<char> {
    if symbols_named(ss, args).len() == 0 {
        "No symbol found matching '"@ + args + "'"@
    } else {
        join(plain_groups_lines(groups_spec(symbols_named(ss, args), ds), symbols_named(ss, args).len() > 1), "\n"@)
    }
}

/// The daemon's `refs` answer: the dependencies that reference the name.
pub open spec fn refs_reply(args: Seq<char>, ds: Seq<Dependency>) -> Seq<char> {
    if ds.filter(refs_pred(args)).len() == 0 {
        "No references found for '"@ + args + "'."@
    } else {
        join(plain_ref_lines(ds.filter(refs_pred(args))), "\n"@)
    }
}

fn dispatch_deps(args: &str, index: &Index) -> (r: Response)
    ensures
        ok_output(r) == Some(deps_reply(args@, index.symbols@, index.deps@)),
{
    let results = collect_deps(index, args);
    let ghost gs = groups_view(results@);
    if results.len() == 0 {
        return Response::ok(not_found("No symbol found matching '", args, "'"));
    }
    let multiple = results.len() > 1;
    let mut lines: Vec<String> = Vec::new();
    let mut i: usize = 0;
    assert(gs.take(0) =~= Seq::<(Seq<char>, Seq<Dependency>)>::empty());
    while i < results.len()
        invariant
            i <= results.len(),
            gs == groups_view(results@),
            multiple == (gs.len() > 1),
            views(lines@) == plain_groups_lines(gs.take(i as int), multiple),
        decreases results.len() - i,
    {
        let g = &results[i];
        assert(gs[i as int] == group_view(results@[i as int]));
        let ghost base = views(lines@);
        if multiple {
            push_line(&mut lines, crate::text::concat("# ", g.qualified_name.as_str()));
        }
        let ghost mid = views(lines@);
        if g.deps.len() == 0 {
            if multiple {
                push_line(&mut lines, owned("  (no dependencies)"));
            } else {
                push_line(&mut lines, owned("No dependencies found."));
            }
        } else {
            let mut j: usize = 0;
            while j < g.deps.len()
                invariant
                    j <= g.deps.len(),
                    views(lines@) == mid + plain_dep_lines(deps_seq(g.deps@).take(j as int)),
                decreases g.deps.len() - j,
            {
                let d = g.deps[j];
                push_line(&mut lines, plain_dep(d, d.to_name.as_str()));
                assert(plain_dep_lines(deps_seq(g.deps@).take(j + 1)) =~= plain_dep_lines(
                    deps_seq(g.deps@).take(j as int),
                ).push(plain_dep_line(*d, d.to_name@)));
                assert(mid + plain_dep_lines(deps_seq(g.deps@).take(j + 1)) =~= (mid + plain_dep_lines(
                    deps_seq(g.deps@).take(j as int),
                )).push(plain_dep_line(*d, d.to_name@)));
                j += 1;
            }
            assert(deps_seq(g.deps@).take(g.deps.len() as int) =~= deps_seq(g.deps@));
        }
        assert(views(lines@) =~= base + plain_group_lines(gs[i as int], multiple));
        assert(gs.take(i + 1).drop_last() =~= gs.take(i as int));
        assert(gs.take(i + 1).last() == gs[i as int]);
        i += 1;
    }
    assert(gs.take(results.len() as int) =~= gs);
    Response::ok(join_strings(&lines, "\n"))
}

fn dispatch_refs(args: &str, index: &Index) -> (r: Response)
    ensures
        ok_output(r) == Some(refs_reply(args@, index.deps@)),
{
    let refs = index.refs_to(args);
    let ghost ds = deps_seq(refs@);
    if refs.len() == 0 {
        return Response::ok(not_found("No references found for '", args, "'."));
    }
    let mut lines: Vec<String> = Vec::new();
    let mut i: usize = 0;
    while i < refs.len()
        invariant
            i <= refs.len(),
            ds == deps_seq(refs@),
            views(lines@) == plain_ref_lines(ds.take(i as int)),
        decreases refs.len() - i,
    {
        let d = refs[i];
        assert(ds[i as int] == *d);
        push_line(&mut lines, plain_dep(d, d.from_qualified.as_str()));
        assert(plain_ref_lines(ds.take(i + 1)) =~= plain_ref_lines(ds.take(i as int)).push(
            plain_dep_line(ds[i as int], ds[i as int].from_qualified@),
        ));
        i += 1;
    }
    assert(ds.take(refs.len() as int) =~= ds);
    Response::ok(join_strings(&lines, "\n"))
}

fn dispatch_query(args: &str, format: &str, index: &Index) -> (r: Response)
    ensures
        match crate::query::parser::parse_spec(args@) {
            Some(qs) => ok_output(r) == Some(batch_output(qs, index.symbols@, index.deps@, format@)),
            None => error_message(r) is Some,
        },
{
    match crate::query::parser::parse(args) {
        Ok(batch) => match crate::query::engine::execute_batch(&batch, index, format) {
            Ok(output) => Response::ok(output),
            Err(e) => Response::error(crate::text::concat("Query execution error: ", e.as_str())),
        },
        Err(e) => Response::error(crate::text::concat("Query parse error: ", e.as_str())),
    }
}

/// Dispatch a request to the appropriate handler.
pub fn dispatch_request<'a>(request: &Request, index: &'a Index) -> (r: Dispatch<'a>)
    ensures
        request.command@ == "ping"@ ==> reply_text(r) == Some("pong"@),
        request.command@ == "shutdown"@ ==> (r matches Dispatch::Shutdown(resp) && ok_output(resp) == Some(
            "shutting down"@,
        )),
        request.command@ == "context"@ ==> (r matches Dispatch::Context { file, format } && file@ == request.args@
            && format@ == request.format@),
        request.command@ == "index"@ ==> r is Reindex,
        request.command@ == "show"@ ==> reply_text(r) == Some(
            if symbols_named(index.symbols@, request.args@).len() == 0 {
                "No symbol found matching '"@ + request.args@ + "'"@
            } else {
                show_text(symbols_named(index.symbols@, request.args@))
            },
        ),
        request.command@ == "refs"@ ==> reply_text(r) == Some(refs_reply(request.args@, index.deps@)),
        request.command@ == "deps"@ ==> reply_text(r) == Some(deps_reply(request.args@, index.symbols@, index.deps@)),
        request.command@ == "query"@ ==> match crate::query::parser::parse_spec(request.args@) {
            Some(qs) => reply_text(r) == Some(batch_output(qs, index.symbols@, index.deps@, request.format@)),
            None => reply_error(r) is Some,
        },
        request.command@ == "ls"@ && lowercase(request.format@) != "json"@ ==> reply_text(r) == Some(
            ls_plain_text(ls_symbols(request.args@, index.symbols@)),
        ),
        request.command@ == "ls"@ && lowercase(request.format@) == "json"@ ==> (r matches Dispatch::SymbolsJson(v)
            && syms(v@) == ls_symbols(request.args@, index.symbols@)),
        !known_command(request.command@) ==> reply_error(r) == Some("Unknown command: "@ + request.command@),
{
    let c = request.command.as_str();
    proof {
        lemma_command_codes();
    }
    let code = command_kind(c);
    if code == 0 {
        Dispatch::Reply(Response::ok(owned("pong")))
    } else if code == 1 {
        Dispatch::Shutdown(Response::ok(owned("shutting down")))
    } else if code == 2 {
        dispatch_ls(request.args.as_str(), request.format.as_str(), index)
    } else if code == 3 {
        Dispatch::Reply(dispatch_show(request.args.as_str(), index))
    } else if code == 4 {
        Dispatch::Reply(dispatch_deps(request.args.as_str(), index))
    } else if code == 5 {
        Dispatch::Reply(dispatch_refs(request.args.as_str(), index))
    } else if code == 6 {
        Dispatch::Context { file: request.args.clone(), format: request.format.clone() }
    } else if code == 7 {
        Dispatch::Reply(dispatch_query(request.args.as_str(), request.format.as_str(), index))
    } else if code == 8 {
        Dispatch::Reindex
    } else {
        Dispatch::Reply(Response::error(crate::text::concat("Unknown command: ", c)))
    }
}

/// Whether the daemon's `context` reads a file with the Java grammar: a
/// `.java` file does; any other file is read as Rust.
pub open spec fn context_is_java(file: Seq<char>) -> bool {
    crate::paths::extension(file) == Some("java"@)
}

/// Parse a file for the daemon's `context` (see [`context_is_java`]).
pub fn parse_for_context(file: &str, source: &str) -> (r: Result<crate::ir::types::Ir, String>)
    ensures
        context_is_java(file@) ==> (r matches Ok(ir) ==> forall|i: int| 0 <= i < ir.symbols@.len() ==> {
            &&& (#[trigger] ir.symbols@[i]).loc.file@ == file@
            &&& crate::parser::java::is_java_kind(ir.symbols@[i].kind@)
        }),
        !context_is_java(file@) ==> (r matches Ok(ir) ==> crate::parser::rust::rust_ir_ok(
            ir,
            crate::parser::rust::rust_module_prefix_spec(file@),
            file@,
        )),
        context_is_java(file@) ==> (r is Ok <==> crate::parser::grammar::grammar_loads(
            crate::parser::grammar::grammar_id(crate::parser::grammar::Grammar::Java),
        )),
        !context_is_java(file@) ==> (r is Ok <==> crate::parser::grammar::grammar_loads(
            crate::parser::grammar::grammar_id(crate::parser::grammar::Grammar::Rust),
        )),
        context_is_java(file@) ==> (r matches Ok(ir) ==> exists|t: crate::parser::tree::SyntaxTree|
            t.wf() && t.len() > 0 && crate::parser::grammar::tree_view(t) == crate::parser::grammar::ts_layout(
                crate::parser::grammar::grammar_id(crate::parser::grammar::Grammar::Java),
                source@,
            ) && #[trigger] crate::parser::java::java_ir_exact(ir, t, file@)),
        !context_is_java(file@) ==> (r matches Ok(ir) ==> exists|t: crate::parser::tree::SyntaxTree|
            t.wf() && t.len() > 0 && crate::parser::grammar::tree_view(t) == crate::parser::grammar::ts_layout(
                crate::parser::grammar::grammar_id(crate::parser::grammar::Grammar::Rust),
                source@,
            ) && #[trigger] crate::parser::rust::rust_ir_exact(ir, t, file@)),
{
    let is_java = match crate::paths::extension_of(file) {
        Some(e) => str_eq(e.as_str(), "java"),
        None => false,
    };
    if is_java {
        crate::parser::java::parse_file(file, source)
    } else {
        crate::parser::rust::parse_file(file, source)
    }
}

/// Whether the server has been idle long enough to shut down: `idle_nanos`
/// is the time since the last connection (or since start), in nanoseconds.
pub fn idle_timeout_reached(idle_nanos: u128, idle_timeout_secs: u64) -> (r: bool)
    ensures
        r == (idle_nanos >= idle_timeout_secs as int * 1_000_000_000),
{
    let limit: u128 = (idle_timeout_secs as u128) * 1_000_000_000u128;
    idle_nanos >= limit
}

/// Whether a changed path makes the watching daemon re-index: a `.rs` or
/// `.java` file.
pub open spec fn watched_source(p: Seq<char>) -> bool {
    crate::paths::extension(p) == Some("rs"@) || crate::paths::extension(p) == Some("java"@)
}

/// Whether a file-system event on these paths makes the daemon re-index.
pub fn triggers_reindex(paths: &Vec<String>) -> (r: bool)
    ensures
        r == exists|i: int| 0 <= i < paths@.len() && watched_source(#[trigger] paths@[i]@),
{
    let mut i: usize = 0;
    while i < paths.len()
        invariant
            i <= paths.len(),
            forall|j: int| 0 <= j < i ==> !watched_source(#[trigger] paths@[j]@),
        decreases paths.len() - i,
    {
        let hit = match crate::paths::extension_of(paths[i].as_str()) {
            Some(e) => str_eq(e.as_str(), "rs") || str_eq(e.as_str(), "java"),
            None => false,
        };
        if hit {
            assert(watched_source(paths@[i as int]@));
            return true;
        }
        i += 1;
    }
    false
}

/// The position of a command in the daemon's list, 9 for an unknown one.
pub open spec fn command_code(c: Seq<char>) -> u8 {
    if c == "ping"@ {
        0
    } else if c == "shutdown"@ {
        1
    } else if c == "ls"@ {
        2
    } else if c == "show"@ {
        3
    } else if c == "deps"@ {
        4
    } else if c == "refs"@ {
        5
    } else if c == "context"@ {
        6
    } else if c == "query"@ {
        7
    } else if c == "index"@ {
        8
    } else {
        9
    }
}

proof fn lemma_command_codes()
    ensures
        command_code("ping"@) == 0,
        command_code("shutdown"@) == 1,
        command_code("ls"@) == 2,
        command_code("show"@) == 3,
        command_code("deps"@) == 4,
        command_code("refs"@) == 5,
        command_code("context"@) == 6,
        command_code("query"@) == 7,
        command_code("index"@) == 8,
        forall|c: Seq<char>| !known_command(c) ==> command_code(c) == 9,
{
    reveal_strlit("ping");
    reveal_strlit("shutdown");
    reveal_strlit("ls");
    reveal_strlit("show");
    reveal_strlit("deps");
    reveal_strlit("refs");
    reveal_strlit("context");
    reveal_strlit("query");
    reveal_strlit("index");
    assert("ping"@.len() == 4 && "ping"@[0] == 'p');
    assert("shutdown"@.len() == 8 && "shutdown"@[0] == 's');
    assert("ls"@.len() == 2 && "ls"@[0] == 'l');
    assert("show"@.len() == 4 && "show"@[0] == 's');
    assert("deps"@.len() == 4 && "deps"@[0] == 'd');
    assert("refs"@.len() == 4 && "refs"@[0] == 'r');
    assert("context"@.len() == 7 && "context"@[0] == 'c');
    assert("query"@.len() == 5 && "query"@[0] == 'q');
    assert("index"@.len() == 5 && "index"@[0] == 'i');
}

fn command_kind(c: &str) -> (k: u8)
    ensures
        k == command_code(c@),
{
    if str_eq(c, "ping") {
        0
    } else if str_eq(c, "shutdown") {
        1
    } else if str_eq(c, "ls") {
        2
    } else if str_eq(c, "show") {
        3
    } else if str_eq(c, "deps") {
        4
    } else if str_eq(c, "refs") {
        5
    } else if str_eq(c, "context") {
        6
    } else if str_eq(c, "query") {
        7
    } else if str_eq(c, "index") {
        8
    } else {
        9
    }
}

/// The commands the daemon answers.
pub open spec fn known_command(c: Seq<char>) -> bool {
    c == "ping"@ || c == "shutdown"@ || c == "ls"@ || c == "show"@ || c == "deps"@ || c == "refs"@
        || c == "context"@ || c == "query"@ || c == "index"@
}

/// The reply after a re-index: the new index's size.
pub fn reindex_summary(index: &Index) -> (r: String)
    ensures
        r@ == "Indexed "@ + decimal(index.symbols@.len()) + " symbols, "@ + decimal(index.deps@.len())
            + " dependencies"@,
{
    let mut r = owned("Indexed ");
    let a = usize_to_string(index.symbols.len());
    push_str(&mut r, a.as_str());
    push_str(&mut r, " symbols, ");
    let b = usize_to_string(index.deps.len());
    push_str(&mut r, b.as_str());
    push_str(&mut r, " dependencies");
    r
}

/// The log entry for a handled request: none for `ping` and `shutdown`;
/// otherwise the command, its arguments, the number of results in the
/// response's output (0 without output) and the time it took.
pub fn log_entry_for(request: &Request, response: &Response, elapsed_ms: u64) -> (r: Option<LogEntry>)
    ensures
        (request.command@ == "ping"@ || request.command@ == "shutdown"@) ==> r is None,
        !(request.command@ == "ping"@ || request.command@ == "shutdown"@) ==> (r matches Some(e)
            && e.command@ == request.command@ && e.args@ == request.args@ && e.duration_ms == elapsed_ms
            && e.results as nat == match response.output {
            Some(o) => count_results_spec(o@),
            None => 0,
        }),
{
    let c = request.command.as_str();
    if str_eq(c, "ping") || str_eq(c, "shutdown") {
        return None;
    }
    let count = match &response.output {
        Some(o) => count_results(o.as_str()),
        None => 0,
    };
    Some(make_entry(c, request.args.as_str(), count, elapsed_ms))
}

} // verus!
