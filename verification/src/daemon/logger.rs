//! The query log: its entries, where it lives, and what counts as a result
//! in a command's output.

use vstd::prelude::*;

use crate::text::{
    chars_of, owned, push_str, starts_with, str_eq, str_starts_with, string_from, trim, trim_str,
};

verus! {

/// A single query log entry.
#[derive(Debug)]
pub struct LogEntry {
    /// ISO 8601 timestamp.
    pub ts: String,
    /// Command type (query, ls, show, deps, refs, context).
    pub command: String,
    /// Command arguments (query string, symbol name, file path, ...).
    pub args: String,
    /// Number of result rows or symbols returned.
    pub results: usize,
    /// Duration in milliseconds.
    pub duration_ms: u64,
}

/// `base` joined with a relative component, as `Path::join` does on a
/// `/`-separated path.
pub open spec fn join_path(base: Seq<char>, part: Seq<char>) -> Seq<char> {
    if base.len() == 0 {
        part
    } else if base.last() == '/' {
        base + part
    } else {
        base + "/"@ + part
    }
}

pub fn join_path_exec(base: &str, part: &str) -> (r: String)
    ensures
        r@ == join_path(base@, part@),
{
    let v = chars_of(base);
    let mut r = owned(base);
    if v.len() > 0 && v[v.len() - 1] != '/' {
        push_str(&mut r, "/");
    }
    push_str(&mut r, part);
    if v.len() == 0 {
        assert(r@ =~= part@);
    }
    r
}

/// The query log of a project: `.smartgrep/queries.log` under its root.
pub fn log_path(project_root: &str) -> (r: String)
    ensures
        r@ == join_path(join_path(project_root@, ".smartgrep"@), "queries.log"@),
{
    let d = join_path_exec(project_root, ".smartgrep");
    join_path_exec(d.as_str(), "queries.log")
}

/// The lines of a text: the pieces between `\n` characters.
pub open spec fn split_lines(s: Seq<char>) -> Seq<Seq<char>>
    decreases s.len(),
{
    if s.len() == 0 {
        seq![seq![]]
    } else {
        let prev = split_lines(s.drop_last());
        if s.last() == '\n' {
            prev.push(seq![])
        } else {
            prev.drop_last().push(prev.last().push(s.last()))
        }
    }
}

/// A line that counts as a result: not blank, not a path header, not a
/// query heading.
pub open spec fn counted_line(l: Seq<char>) -> bool {
    let t = trim(l);
    t.len() > 0 && !starts_with(t, "[paths]"@) && !starts_with(t, "# Query"@)
}

/// Output that reports that nothing was found.
pub open spec fn empty_output(s: Seq<char>) -> bool {
    s.len() == 0 || s == "No results."@ || s == "No symbols found."@ || starts_with(s, "No symbol found"@)
        || starts_with(s, "No references found"@) || starts_with(s, "No dependencies found"@)
}

/// Number of results in a command's output: 0 for an empty or "nothing
/// found" output, otherwise the number of counted lines.
pub open spec fn count_results_spec(s: Seq<char>) -> nat {
    if empty_output(s) {
        0
    } else {
        split_lines(s).filter(|l: Seq<char>| counted_line(l)).len()
    }
}

fn counted(line: &Vec<char>) -> (r: bool)
    ensures
        r == counted_line(line@),
{
    let s = string_from(line);
    let t = trim_str(s.as_str());
    chars_of(t.as_str()).len() > 0 && !str_starts_with(t.as_str(), "[paths]") && !str_starts_with(
        t.as_str(),
        "# Query",
    )
}

pub proof fn lemma_split_lines_nonempty(s: Seq<char>)
    ensures
        split_lines(s).len() >= 1,
    decreases s.len(),
{
    if s.len() > 0 {
        lemma_split_lines_nonempty(s.drop_last());
    }
}

/// Count the number of result items in command output: non-empty lines
/// other than path headers and query headings.
pub fn count_results(output: &str) -> (r: usize)
    ensures
        r as nat == count_results_spec(output@),
{
    let v = chars_of(output);
    if v.len() == 0 || str_eq(output, "No results.") || str_eq(output, "No symbols found.")
        || str_starts_with(output, "No symbol found") || str_starts_with(output, "No references found")
        || str_starts_with(output, "No dependencies found") {
        return 0;
    }
    let ghost p = |l: Seq<char>| counted_line(l);
    let ghost mut done: Seq<Seq<char>> = seq![];
    let mut cur: Vec<char> = Vec::new();
    let mut count: usize = 0;
    let mut i: usize = 0;
    assert(output@.take(0) =~= Seq::<char>::empty());
    assert(split_lines(output@.take(0)) =~= done + seq![cur@]);
    while i < v.len()
        invariant
            i <= v.len(),
            v@ == output@,
            p == (|l: Seq<char>| counted_line(l)),
            split_lines(output@.take(i as int)) == done + seq![cur@],
            count as nat == done.filter(p).len(),
            done.len() + cur@.len() <= i,
        decreases v.len() - i,
    {
        assert(output@.take(i + 1).drop_last() =~= output@.take(i as int));
        assert(output@.take(i + 1).last() == v[i as int]);
        proof {
            done.filter(p).lemma_filter_len(p);
            done.lemma_filter_len(p);
        }
        if v[i] == '\n' {
            let c = counted(&cur);
            proof {
                done.lemma_filter_push(cur@, p);
                assert(split_lines(output@.take(i + 1)) =~= done.push(cur@) + seq![Seq::<char>::empty()]);
                done = done.push(cur@);
            }
            if c {
                count = count + 1;
            }
            cur = Vec::new();
            assert(cur@ =~= Seq::<char>::empty());
        } else {
            let ghost prev = split_lines(output@.take(i as int));
            cur.push(v[i]);
            assert(prev.drop_last() =~= done);
            assert(split_lines(output@.take(i + 1)) =~= done + seq![cur@]);
        }
        i += 1;
    }
    assert(output@.take(v.len() as int) =~= output@);
    proof {
        done.lemma_filter_push(cur@, p);
        done.lemma_filter_len(p);
        assert(done + seq![cur@] =~= done.push(cur@));
    }
    let c = counted(&cur);
    if c {
        assert(cur@.len() > 0);
        count + 1
    } else {
        count
    }
}

/// The last `n` entries (all of them when there are fewer).
pub fn read_last_n(entries: Vec<LogEntry>, n: usize) -> (r: Vec<LogEntry>)
    ensures
        r@ == if n >= entries@.len() { entries@ } else { entries@.skip(entries@.len() - n) },
{
    let len = entries.len();
    let start = if n >= len { 0 } else { len - n };
    let mut entries = entries;
    // Drop the first `start` entries.
    let ghost all = entries@;
    let mut k: usize = 0;
    while k < start
        invariant
            k <= start <= len,
            len == all.len(),
            entries@ == all.skip(k as int),
        decreases start - k,
    {
        entries.remove(0);
        assert(entries@ =~= all.skip(k + 1));
        k += 1;
    }
    assert(all.skip(0) =~= all);
    entries
}

/// The log is cut back once it holds more lines than this.
pub const MAX_LOG_ENTRIES: usize = 10000;

/// After an append: the lines to keep when the log has grown past
/// [`MAX_LOG_ENTRIES`] (its most recent half), `None` when it stays as it is.
pub fn lines_to_keep(lines: Vec<String>) -> (r: Option<Vec<String>>)
    ensures
        lines@.len() <= MAX_LOG_ENTRIES ==> r is None,
        lines@.len() > MAX_LOG_ENTRIES ==> (r matches Some(k) && k@ == lines@.skip((lines@.len() / 2) as int)),
{
    let len = lines.len();
    if len <= MAX_LOG_ENTRIES {
        return None;
    }
    let start = len / 2;
    let mut lines = lines;
    let ghost all = lines@;
    let mut k: usize = 0;
    while k < start
        invariant
            k <= start <= len,
            len == all.len(),
            lines@ == all.skip(k as int),
        decreases start - k,
    {
        lines.remove(0);
        assert(lines@ =~= all.skip(k + 1));
        k += 1;
    }
    Some(lines)
}

/// `chrono::Utc::now()` in RFC 3339 form with whole seconds and a `Z`
/// suffix. Nothing is stated of the time it reads.
#[verifier::external_body]
fn now_rfc3339() -> (r: String) {
    chrono::Utc::now().to_rfc3339_opts(chrono::SecondsFormat::Secs, true)
}

/// Create a log entry stamped with the current time.
pub fn make_entry(command: &str, args: &str, results: usize, duration_ms: u64) -> (r: LogEntry)
    ensures
        r.command@ == command@,
        r.args@ == args@,
        r.results == results,
        r.duration_ms == duration_ms,
{
    LogEntry { ts: now_rfc3339(), command: owned(command), args: owned(args), results, duration_ms }
}

} // verus!
