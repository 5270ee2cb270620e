//! `init`: make a project ready for coding agents. The logic: the smartgrep
//! block for the agent instruction files, how it goes into a file, the
//! `.gitignore` entry, the plan of file changes, and its summary.

use vstd::prelude::*;

use crate::commands::map::is_generated_spec;
use crate::daemon::logger::split_lines;
use crate::index::types::{deps_from, refs_pred, symbols_named, Index};
use crate::ir::kinds::{is_callable_kind_spec, is_function_kind_spec, is_type_kind_spec};
use crate::ir::types::{Dependency, Symbol, Visibility};
use crate::commands::install_skill::skill_path_spec;
use crate::lang::{languages, lang_for_path, language_for_path, registry, LangSpec, LanguageEntry};
use crate::paths::{components, file_name, parent_spec};
use crate::query::engine::lex_order;
use crate::text::{
    byte_len, chars_of, contains, decimal, ends_with, find, is_alphanumeric, join, join_strings,
    occurs_at, occurs_at_exec, owned, push_char, push_str, replace_char, starts_with, str_eq,
    string_of, trim, trim_str, usize_to_string, views,
};

verus! {

pub const START_MARKER: &'static str = "<!-- smartgrep:start -->";

pub const END_MARKER: &'static str = "<!-- smartgrep:end -->";

/// Projects with at least this many source files get the scoping warning.
pub const LARGE_PROJECT_FILES: usize = 100;

/// Options of `init`.
#[derive(Debug, Clone, Copy)]
pub struct InitOptions {
    /// Also create/update AGENTS.md.
    pub agents_md: bool,
    /// Don't install the repo-scoped skill.
    pub no_skill: bool,
    /// Print what would change; write nothing.
    pub dry_run: bool,
}

/// What a planned write does to its file.
#[derive(Debug, Clone, Copy, PartialEq, Eq, Structural)]
pub enum Action {
    Create,
    Update,
    Unchanged,
}

/// A planned write of a whole file, relative to the project root.
#[derive(Debug)]
pub struct FileChange {
    pub rel_path: String,
    pub action: Action,
    pub content: String,
}

// ---------------------------------------------------------------------------
// The instruction block in a file
// ---------------------------------------------------------------------------

/// Start positions of the occurrences of `m` in `t` before position `n`.
pub open spec fn positions_before(t: Seq<char>, m: Seq<char>, n: int) -> Seq<int>
    decreases n,
{
    if n <= 0 {
        seq![]
    } else {
        let p = positions_before(t, m, n - 1);
        if occurs_at(t, m, n - 1) {
            p.push(n - 1)
        } else {
            p
        }
    }
}

/// Start positions of the occurrences of `m` in `t`.
pub open spec fn positions(t: Seq<char>, m: Seq<char>) -> Seq<int> {
    positions_before(t, m, t.len() as int)
}

/// `s` without trailing `\n` and `\r` characters.
pub open spec fn trim_end_newlines(s: Seq<char>) -> Seq<char>
    decreases s.len(),
{
    if s.len() > 0 && (s.last() == '\n' || s.last() == '\r') {
        trim_end_newlines(s.drop_last())
    } else {
        s
    }
}

/// An instruction file's content with the block inserted or replaced, or
/// `None` when its markers are malformed. A missing file gets the block; a
/// file without markers gets it appended after a blank line; a file with one
/// start marker before one end marker gets what lies between them (markers
/// included) replaced; anything else is malformed.
pub open spec fn apply_block_spec(existing: Option<Seq<char>>, block: Seq<char>) -> Option<Seq<char>> {
    match existing {
        None => Some(block + "\n"@),
        Some(t) => {
            let s = positions(t, START_MARKER@);
            let e = positions(t, END_MARKER@);
            if s.len() == 0 && e.len() == 0 {
                let body = trim_end_newlines(t);
                if trim(body).len() == 0 {
                    Some(block + "\n"@)
                } else {
                    Some(body + "\n\n"@ + block + "\n"@)
                }
            } else if s.len() == 1 && e.len() == 1 && s[0] < e[0] {
                Some(t.take(s[0]) + block + t.skip(e[0] + END_MARKER@.len()))
            } else {
                None
            }
        },
    }
}

fn marker_positions(t: &Vec<char>, m: &Vec<char>) -> (r: Vec<usize>)
    ensures
        r@.len() == positions(t@, m@).len(),
        forall|i: int| 0 <= i < r@.len() ==> r@[i] as int == #[trigger] positions(t@, m@)[i],
{
    let mut r: Vec<usize> = Vec::new();
    let mut i: usize = 0;
    while i < t.len()
        invariant
            i <= t.len(),
            r@.len() == positions_before(t@, m@, i as int).len(),
            forall|j: int| 0 <= j < r@.len() ==> r@[j] as int == #[trigger] positions_before(t@, m@, i as int)[j],
        decreases t.len() - i,
    {
        if occurs_at_exec(t, m, i) {
            r.push(i);
        }
        i += 1;
    }
    r
}

fn trim_end_newlines_exec(v: &Vec<char>) -> (r: usize)
    ensures
        r <= v.len(),
        v@.take(r as int) == trim_end_newlines(v@),
{
    let mut b = v.len();
    assert(v@.take(b as int) =~= v@);
    while b > 0 && (v[b - 1] == '\n' || v[b - 1] == '\r')
        invariant
            b <= v.len(),
            trim_end_newlines(v@) == trim_end_newlines(v@.take(b as int)),
        decreases b,
    {
        assert(v@.take(b as int).drop_last() =~= v@.take(b - 1));
        b -= 1;
    }
    b
}

/// The error for an instruction file whose markers are malformed: how many
/// start and end markers it holds.
pub open spec fn marker_error_message(t: Seq<char>) -> Seq<char> {
    "malformed smartgrep markers (expected exactly one `"@ + START_MARKER@ + "` followed by one `"@ + END_MARKER@
        + "`; found "@ + decimal(positions(t, START_MARKER@).len()) + " start, "@ + decimal(
        positions(t, END_MARKER@).len(),
    ) + " end)"@
}

/// The error when no source file of a supported language was found.
pub open spec fn no_sources_message(root: Seq<char>) -> Seq<char> {
    "No supported source files found under "@ + root + ".\nsmartgrep supports: "@
        + crate::lang::extensions_display_spec()
}

/// Insert or replace the smartgrep block in an instruction file's content
/// (`None`: the file doesn't exist). Content outside the markers is never
/// modified, apart from trailing newlines when appending.
pub fn apply_block(existing: Option<&str>, block: &str) -> (r: Result<String, String>)
    ensures
        match r {
            Ok(s) => apply_block_spec(match existing {
                Some(t) => Some(t@),
                None => None,
            }, block@) == Some(s@),
            Err(m) => apply_block_spec(match existing {
                Some(t) => Some(t@),
                None => None,
            }, block@) is None && (existing matches Some(t) && m@ == marker_error_message(t@)),
        },
{
    let text = match existing {
        None => {
            let mut r = owned(block);
            push_str(&mut r, "\n");
            return Ok(r);
        },
        Some(t) => t,
    };
    let tv = chars_of(text);
    let sm = chars_of(START_MARKER);
    let em = chars_of(END_MARKER);
    let starts = marker_positions(&tv, &sm);
    let ends = marker_positions(&tv, &em);
    if starts.len() == 0 && ends.len() == 0 {
        let b = trim_end_newlines_exec(&tv);
        let body = string_of(&tv, 0, b);
        assert(body@ =~= tv@.take(b as int));
        let t = trim_str(body.as_str());
        if chars_of(t.as_str()).len() == 0 {
            let mut r = owned(block);
            push_str(&mut r, "\n");
            Ok(r)
        } else {
            let mut r = body;
            push_str(&mut r, "\n\n");
            push_str(&mut r, block);
            push_str(&mut r, "\n");
            Ok(r)
        }
    } else if starts.len() == 1 && ends.len() == 1 && starts[0] < ends[0] {
        let s = starts[0];
        let e = ends[0];
        proof {
            assert(positions(tv@, em@)[0] == e as int);
            assert(occurs_at(tv@, em@, e as int)) by {
                lemma_positions_occur(tv@, em@, tv@.len() as int, 0);
            }
        }
        assert(e + em.len() <= tv.len());
        let end = e + em.len();
        let mut r = string_of(&tv, 0, s);
        push_str(&mut r, block);
        let rest = string_of(&tv, end, tv.len());
        push_str(&mut r, rest.as_str());
        assert(tv@.subrange(0, s as int) =~= tv@.take(s as int));
        assert(tv@.subrange(end as int, tv.len() as int) =~= tv@.skip(end as int));
        Ok(r)
    } else {
        let mut m = owned("malformed smartgrep markers (expected exactly one `");
        push_str(&mut m, START_MARKER);
        push_str(&mut m, "` followed by one `");
        push_str(&mut m, END_MARKER);
        push_str(&mut m, "`; found ");
        let a = usize_to_string(starts.len());
        push_str(&mut m, a.as_str());
        push_str(&mut m, " start, ");
        let b = usize_to_string(ends.len());
        push_str(&mut m, b.as_str());
        push_str(&mut m, " end)");
        proof {
            assert(sm@ == START_MARKER@);
            assert(em@ == END_MARKER@);
            assert(starts@.len() == positions(tv@, sm@).len());
        }
        assert(m@ =~= marker_error_message(text@));
        Err(m)
    }
}

pub proof fn lemma_positions_occur(t: Seq<char>, m: Seq<char>, n: int, k: int)
    requires
        0 <= k < positions_before(t, m, n).len(),
    ensures
        occurs_at(t, m, positions_before(t, m, n)[k]),
        0 <= positions_before(t, m, n)[k] < n,
    decreases n,
{
    if n > 0 {
        let p = positions_before(t, m, n - 1);
        if k < p.len() {
            lemma_positions_occur(t, m, n - 1, k);
        }
    }
}

// ---------------------------------------------------------------------------
// .gitignore
// ---------------------------------------------------------------------------

/// A `.gitignore` line that already ignores the `.smartgrep` directory.
pub open spec fn ignores_smartgrep_spec(line: Seq<char>) -> bool {
    let t = trim(line);
    t == ".smartgrep"@ || t == ".smartgrep/"@ || t == "/.smartgrep"@ || t == "/.smartgrep/"@ || t
        == ".smartgrep/*"@ || t == "/.smartgrep/*"@ || t == ".smartgrep/**"@
}

/// Some line of the text ignores `.smartgrep`.
pub open spec fn ignored_already(text: Seq<char>) -> bool {
    exists|i: int| 0 <= i < split_lines(text).len() && ignores_smartgrep_spec(#[trigger] split_lines(text)[i])
}

/// New `.gitignore` content with `.smartgrep/` added (after a newline when
/// the text doesn't end with one), or `None` when it is already ignored.
pub open spec fn gitignore_spec(existing: Option<Seq<char>>) -> Option<Seq<char>> {
    let text = match existing {
        Some(t) => t,
        None => seq![],
    };
    if ignored_already(text) {
        None
    } else {
        let out = if text.len() > 0 && text.last() != '\n' {
            text.push('\n')
        } else {
            text
        };
        Some(out + ".smartgrep/\n"@)
    }
}

fn ignores_smartgrep(line: &Vec<char>) -> (r: bool)
    ensures
        r == ignores_smartgrep_spec(line@),
{
    let s = crate::text::string_from(line);
    let t = trim_str(s.as_str());
    let t = t.as_str();
    str_eq(t, ".smartgrep") || str_eq(t, ".smartgrep/") || str_eq(t, "/.smartgrep") || str_eq(
        t,
        "/.smartgrep/",
    ) || str_eq(t, ".smartgrep/*") || str_eq(t, "/.smartgrep/*") || str_eq(t, ".smartgrep/**")
}

/// New `.gitignore` content with `.smartgrep/` added, or `None` if it is
/// already ignored.
pub fn gitignore_with_smartgrep(existing: Option<&str>) -> (r: Option<String>)
    ensures
        match r {
            Some(s) => gitignore_spec(match existing {
                Some(t) => Some(t@),
                None => None,
            }) == Some(s@),
            None => gitignore_spec(match existing {
                Some(t) => Some(t@),
                None => None,
            }) is None,
        },
{
    let text: &str = match existing {
        Some(t) => t,
        None => {
            proof {
                reveal_strlit("");
            }
            ""
        },
    };
    let v = chars_of(text);
    let ghost tx = match existing {
        Some(t) => t@,
        None => Seq::<char>::empty(),
    };
    assert(text@ == tx);
    // Scan the lines.
    let ghost mut done: Seq<Seq<char>> = seq![];
    let mut cur: Vec<char> = Vec::new();
    let mut i: usize = 0;
    assert(text@.take(0) =~= Seq::<char>::empty());
    assert(split_lines(text@.take(0)) =~= done + seq![cur@]);
    while i < v.len()
        invariant
            i <= v.len(),
            v@ == text@,
            text@ == tx,
            tx == match existing {
                Some(t) => t@,
                None => Seq::<char>::empty(),
            },
            split_lines(text@.take(i as int)) == done + seq![cur@],
            forall|j: int| 0 <= j < done.len() ==> !ignores_smartgrep_spec(#[trigger] done[j]),
        decreases v.len() - i,
    {
        assert(text@.take(i + 1).drop_last() =~= text@.take(i as int));
        assert(text@.take(i + 1).last() == v[i as int]);
        if v[i] == '\n' {
            if ignores_smartgrep(&cur) {
                proof {
                    let sl = split_lines(text@);
                    lemma_split_lines_prefix(text@, i as int);
                    assert(split_lines(text@.take(i as int))[done.len() as int] == cur@);
                    assert(sl[done.len() as int] == cur@);
                    assert(ignores_smartgrep_spec(sl[done.len() as int]));
                }
                return None;
            }
            proof {
                assert(split_lines(text@.take(i + 1)) =~= done.push(cur@) + seq![Seq::<char>::empty()]);
                done = done.push(cur@);
            }
            cur = Vec::new();
            assert(cur@ =~= Seq::<char>::empty());
        } else {
            let ghost prev = split_lines(text@.take(i as int));
            cur.push(v[i]);
            assert(prev.drop_last() =~= done);
            assert(split_lines(text@.take(i + 1)) =~= done + seq![cur@]);
        }
        i += 1;
    }
    assert(text@.take(v.len() as int) =~= text@);
    if ignores_smartgrep(&cur) {
        assert(split_lines(text@)[done.len() as int] == cur@);
        return None;
    }
    assert forall|j: int| 0 <= j < split_lines(text@).len() implies !ignores_smartgrep_spec(
        #[trigger] split_lines(text@)[j],
    ) by {
        if j < done.len() {
            assert(split_lines(text@)[j] == done[j]);
        } else {
            assert(split_lines(text@)[j] == cur@);
        }
    }
    let mut out = owned(text);
    if v.len() > 0 && v[v.len() - 1] != '\n' {
        push_char(&mut out, '\n');
    }
    push_str(&mut out, ".smartgrep/\n");
    Some(out)
}

/// The lines of a prefix ending just before a newline are a prefix of the
/// lines of the whole text.
proof fn lemma_split_lines_prefix(s: Seq<char>, i: int)
    requires
        0 <= i < s.len(),
        s[i] == '\n',
    ensures
        forall|j: int| 0 <= j < split_lines(s.take(i)).len() ==> #[trigger] split_lines(s)[j] == split_lines(s.take(i))[j],
        split_lines(s.take(i)).len() < split_lines(s).len(),
    decreases s.len(),
{
    crate::daemon::logger::lemma_split_lines_nonempty(s.take(i));
    if i == s.len() - 1 {
        assert(s.drop_last() =~= s.take(i));
    } else {
        lemma_split_lines_prefix(s.drop_last(), i);
        assert(s.drop_last().take(i) =~= s.take(i));
        crate::daemon::logger::lemma_split_lines_nonempty(s.drop_last());
    }
}

proof fn lemma_split_lines_append(a: Seq<char>, w: Seq<char>)
    requires
        !w.contains('\n'),
    ensures
        split_lines(a + w) == split_lines(a).drop_last().push(split_lines(a).last() + w),
    decreases w.len(),
{
    crate::daemon::logger::lemma_split_lines_nonempty(a);
    if w.len() == 0 {
        assert(a + w =~= a);
        assert(split_lines(a).last() + w =~= split_lines(a).last());
        assert(split_lines(a).drop_last().push(split_lines(a).last()) =~= split_lines(a));
    } else {
        let w2 = w.drop_last();
        assert(!w2.contains('\n')) by {
            if w2.contains('\n') {
                let k = choose|k: int| 0 <= k < w2.len() && w2[k] == '\n';
                assert(w[k] == '\n');
            }
        }
        assert(w.last() != '\n') by {
            assert(w[w.len() - 1] == w.last());
        }
        lemma_split_lines_append(a, w2);
        assert((a + w).drop_last() =~= a + w2);
        assert((a + w).last() == w.last());
        let prev = split_lines(a + w2);
        assert(split_lines(a + w) == prev.drop_last().push(prev.last().push(w.last())));
        assert(prev.drop_last() =~= split_lines(a).drop_last());
        assert(prev.last().push(w.last()) =~= split_lines(a).last() + w);
    }
}

/// Adding `.smartgrep/` to a `.gitignore` is idempotent: once added, the
/// content is left alone.
pub proof fn lemma_gitignore_idempotent(existing: Option<Seq<char>>)
    ensures
        gitignore_spec(existing) matches Some(y) ==> gitignore_spec(Some(y)) is None,
{
    if let Some(y) = gitignore_spec(existing) {
        let text = match existing {
            Some(t) => t,
            None => seq![],
        };
        let out = if text.len() > 0 && text.last() != '\n' {
            text.push('\n')
        } else {
            text
        };
        reveal_strlit(".smartgrep/\n");
        reveal_strlit(".smartgrep/");
        let w = ".smartgrep/"@;
        assert(!w.contains('\n'));
        assert(y =~= (out + w).push('\n'));
        crate::daemon::logger::lemma_split_lines_nonempty(out);
        assert(split_lines(out).last() =~= Seq::<char>::empty()) by {
            if out.len() > 0 {
                assert(out.last() == '\n');
                assert(out.drop_last().push(out.last()) =~= out);
            }
        }
        lemma_split_lines_append(out, w);
        assert(Seq::<char>::empty() + w =~= w);
        let sl = split_lines(y);
        assert((out + w).push('\n').drop_last() =~= out + w);
        let k = split_lines(out).len() - 1;
        assert(sl[k] == w);
        assert(trim(w) == w) by {
            assert(!crate::text::is_ws(w[0]));
            assert(!crate::text::is_ws(w.last()));
        }
        assert(ignores_smartgrep_spec(sl[k]));
    }
}

// ---------------------------------------------------------------------------
// Planned changes and their summary
// ---------------------------------------------------------------------------

/// What writing `content` does to a file: create it when missing, nothing
/// when it already holds exactly that, update it otherwise.
pub open spec fn action_for(existing: Option<Seq<char>>, content: Seq<char>) -> Action {
    match existing {
        None => Action::Create,
        Some(old) => if old == content {
            Action::Unchanged
        } else {
            Action::Update
        },
    }
}

/// The planned write of `content` to `rel_path`.
pub fn change(rel_path: String, existing: Option<&str>, content: String) -> (r: FileChange)
    ensures
        r.rel_path == rel_path,
        r.content == content,
        r.action == action_for(match existing {
            Some(t) => Some(t@),
            None => None,
        }, content@),
{
    let action = match existing {
        None => Action::Create,
        Some(old) => if str_eq(old, content.as_str()) {
            Action::Unchanged
        } else {
            Action::Update
        },
    };
    FileChange { rel_path, action, content }
}

/// A path with `/` separators, for display.
pub fn rel_display(p: &str) -> (r: String)
    ensures
        r@ == replace_char(p@, '\\', '/'),
{
    crate::paths::to_slash_with(p, '\\')
}

/// Everything `init` would do, computed without writing.
pub struct Plan {
    pub root: String,
    /// (language name, source file count), in registry order.
    pub languages: Vec<(&'static str, usize)>,
    pub symbol_count: usize,
    pub dep_count: usize,
    pub block: String,
    pub instruction_files: Vec<FileChange>,
    pub skill: Option<FileChange>,
    pub gitignore: Option<FileChange>,
}

pub open spec fn lang_count_text(l: (&'static str, usize)) -> Seq<char> {
    l.0@ + " ("@ + decimal(l.1 as nat) + " file"@ + (if l.1 == 1 { ""@ } else { "s"@ }) + ")"@
}

pub open spec fn lang_count_texts(v: Seq<(&'static str, usize)>) -> Seq<Seq<char>> {
    v.map_values(|l: (&'static str, usize)| lang_count_text(l))
}

/// The summary line of an instruction file change.
pub open spec fn instruction_line(c: FileChange, dry_run: bool) -> Seq<char> {
    let p = replace_char(c.rel_path@, '\\', '/');
    match c.action {
        Action::Create => if dry_run {
            "Would create "@ + p + " (smartgrep block)"@
        } else {
            "Created "@ + p + " (smartgrep block)"@
        },
        Action::Update => if dry_run {
            "Would update "@ + p + " (smartgrep block)"@
        } else {
            "Updated "@ + p + " (smartgrep block)"@
        },
        Action::Unchanged => p + " already up to date"@,
    }
}

pub open spec fn instruction_lines(v: Seq<FileChange>, dry_run: bool) -> Seq<Seq<char>> {
    v.map_values(|c: FileChange| instruction_line(c, dry_run))
}

pub open spec fn skill_line(c: FileChange, dry_run: bool) -> Seq<char> {
    let p = replace_char(c.rel_path@, '\\', '/');
    if c.action == Action::Unchanged {
        "Skill already up to date: "@ + p
    } else if dry_run {
        "Would install skill: "@ + p
    } else {
        "Installed skill: "@ + p
    }
}

/// The summary of a plan, after applying it or for a dry run.
pub open spec fn summary_lines(plan: Plan, dry_run: bool) -> Seq<Seq<char>> {
    seq![
        "Detected: "@ + join(lang_count_texts(plan.languages@), ", "@),
        (if dry_run { "Would index"@ } else { "Indexed"@ }) + " "@ + decimal(plan.symbol_count as nat)
            + " symbols, "@ + decimal(plan.dep_count as nat) + " deps"@,
    ] + instruction_lines(plan.instruction_files@, dry_run) + (match plan.skill {
        Some(c) => seq![skill_line(c, dry_run)],
        None => seq![],
    }) + (if plan.gitignore is Some {
        seq![
            if dry_run {
                "Would add .smartgrep/ to .gitignore"@
            } else {
                "Added .smartgrep/ to .gitignore"@
            },
        ]
    } else {
        seq![]
    }) + (if dry_run {
        seq![seq![], "Block:"@, plan.block@, seq![], "Dry run: nothing written."@]
    } else {
        seq![]
    })
}

fn push_line(lines: &mut Vec<String>, s: String)
    ensures
        views(final(lines)@) == views(old(lines)@).push(s@),
{
    let ghost before = views(lines@);
    lines.push(s);
    assert(views(lines@) =~= before.push(s@));
}

fn cat(a: &str, b: &str) -> (r: String)
    ensures
        r@ == a@ + b@,
{
    crate::text::concat(a, b)
}

fn cat3(a: &str, b: &str, c: &str) -> (r: String)
    ensures
        r@ == a@ + b@ + c@,
{
    let mut r = owned(a);
    push_str(&mut r, b);
    push_str(&mut r, c);
    r
}

fn instruction_text(c: &FileChange, dry_run: bool) -> (r: String)
    ensures
        r@ == instruction_line(*c, dry_run),
{
    let p = rel_display(c.rel_path.as_str());
    match c.action {
        Action::Create => if dry_run {
            cat3("Would create ", p.as_str(), " (smartgrep block)")
        } else {
            cat3("Created ", p.as_str(), " (smartgrep block)")
        },
        Action::Update => if dry_run {
            cat3("Would update ", p.as_str(), " (smartgrep block)")
        } else {
            cat3("Updated ", p.as_str(), " (smartgrep block)")
        },
        Action::Unchanged => cat(p.as_str(), " already up to date"),
    }
}

/// Human-readable summary of a plan (after applying it, or for a dry run).
pub fn summary(plan: &Plan, dry_run: bool) -> (r: String)
    ensures
        r@ == join(summary_lines(*plan, dry_run), "\n"@),
{
    let mut langs: Vec<String> = Vec::new();
    let mut i: usize = 0;
    while i < plan.languages.len()
        invariant
            i <= plan.languages.len(),
            views(langs@) == lang_count_texts(plan.languages@).take(i as int),
        decreases plan.languages.len() - i,
    {
        let (l, n) = plan.languages[i];
        let mut t = cat(l, " (");
        let ns = usize_to_string(n);
        push_str(&mut t, ns.as_str());
        push_str(&mut t, " file");
        if n == 1 {
            proof {
                reveal_strlit("");
            }
            push_str(&mut t, "");
        } else {
            push_str(&mut t, "s");
        }
        push_str(&mut t, ")");
        push_line(&mut langs, t);
        assert(lang_count_texts(plan.languages@).take(i + 1) =~= lang_count_texts(plan.languages@).take(i as int).push(
            lang_count_text(plan.languages@[i as int]),
        ));
        i += 1;
    }
    assert(lang_count_texts(plan.languages@).take(plan.languages.len() as int) =~= lang_count_texts(plan.languages@));
    let mut out: Vec<String> = Vec::new();
    let j = join_strings(&langs, ", ");
    push_line(&mut out, cat("Detected: ", j.as_str()));
    let mut l2 = if dry_run {
        owned("Would index")
    } else {
        owned("Indexed")
    };
    push_str(&mut l2, " ");
    let sc = usize_to_string(plan.symbol_count);
    push_str(&mut l2, sc.as_str());
    push_str(&mut l2, " symbols, ");
    let dc = usize_to_string(plan.dep_count);
    push_str(&mut l2, dc.as_str());
    push_str(&mut l2, " deps");
    push_line(&mut out, l2);
    let ghost base = views(out@);
    let mut i: usize = 0;
    while i < plan.instruction_files.len()
        invariant
            i <= plan.instruction_files.len(),
            views(out@) == base + instruction_lines(plan.instruction_files@, dry_run).take(i as int),
        decreases plan.instruction_files.len() - i,
    {
        push_line(&mut out, instruction_text(&plan.instruction_files[i], dry_run));
        assert(instruction_lines(plan.instruction_files@, dry_run).take(i + 1) =~= instruction_lines(
            plan.instruction_files@,
            dry_run,
        ).take(i as int).push(instruction_line(plan.instruction_files@[i as int], dry_run)));
        assert(base + instruction_lines(plan.instruction_files@, dry_run).take(i + 1) =~= (base
            + instruction_lines(plan.instruction_files@, dry_run).take(i as int)).push(
            instruction_line(plan.instruction_files@[i as int], dry_run),
        ));
        i += 1;
    }
    assert(instruction_lines(plan.instruction_files@, dry_run).take(plan.instruction_files.len() as int)
        =~= instruction_lines(plan.instruction_files@, dry_run));
    let ghost b2 = views(out@);
    match &plan.skill {
        Some(c) => {
            let p = rel_display(c.rel_path.as_str());
            let line = if c.action == Action::Unchanged {
                cat("Skill already up to date: ", p.as_str())
            } else if dry_run {
                cat("Would install skill: ", p.as_str())
            } else {
                cat("Installed skill: ", p.as_str())
            };
            push_line(&mut out, line);
        },
        None => {},
    }
    let ghost b3 = views(out@);
    if plan.gitignore.is_some() {
        push_line(
            &mut out,
            if dry_run {
                owned("Would add .smartgrep/ to .gitignore")
            } else {
                owned("Added .smartgrep/ to .gitignore")
            },
        );
    }
    let ghost b4 = views(out@);
    if dry_run {
        push_line(&mut out, String::new());
        push_line(&mut out, owned("Block:"));
        push_line(&mut out, plan.block.clone());
        push_line(&mut out, String::new());
        push_line(&mut out, owned("Dry run: nothing written."));
    }
    assert(views(out@) =~= summary_lines(*plan, dry_run));
    join_strings(&out, "\n")
}

// ---------------------------------------------------------------------------
// The instruction block
// ---------------------------------------------------------------------------

/// Real symbol names used to make the block's example commands work.
#[derive(Debug)]
pub struct Examples {
    /// A public type (struct/class/interface/...) and its kind.
    pub type_symbol: Option<(String, String)>,
    /// A public function (or method) and its kind.
    pub function: Option<(String, String)>,
    /// A source file worth `context`-ing (the type's file).
    pub file: Option<String>,
    /// Directory (with trailing '/') of the type, for `--in` scoping.
    pub type_dir: Option<String>,
    /// Directory (with trailing '/') of the function, for `file contains`.
    pub function_dir: Option<String>,
    /// Name for the `refs` example (the type, or the function if only it has refs).
    pub refs_target: Option<String>,
    /// Name for the `deps` example (the function, or the type if only it has deps).
    pub deps_target: Option<String>,
}

/// Inputs to [`render_block`].
pub struct BlockContext {
    /// Detected languages, registry order.
    pub languages: Vec<crate::lang::LanguageEntry>,
    pub total_files: usize,
    pub examples: Examples,
    /// Repo-relative path of the installed skill, if there is one.
    pub skill_path: Option<String>,
}

pub const BLOCK_INTRO: &'static str = "This project is indexed by `smartgrep` (tree-sitter symbol index; it re-indexes automatically). For structural questions (where is X defined, what's in this file, who calls X, what implements Y) prefer it over grep and reading whole files: one call, far fewer tokens. Read files when you need a full implementation body.";

/// Plural `ls`/`query` term for a native kind (`class` → `classes`);
/// TypeScript's `function` has no plural, `functions` being the umbrella.
pub open spec fn kind_term_spec(k: Seq<char>) -> Seq<char> {
    if k == "function"@ {
        "function"@
    } else if k == "class"@ {
        "classes"@
    } else {
        k + "s"@
    }
}

fn kind_term(kind: &str) -> (r: String)
    ensures
        r@ == kind_term_spec(kind@),
{
    if str_eq(kind, "function") {
        owned("function")
    } else if str_eq(kind, "class") {
        owned("classes")
    } else {
        cat(kind, "s")
    }
}

pub open spec fn opt_or(o: Option<String>, d: Seq<char>) -> Seq<char> {
    match o {
        Some(x) => x@,
        None => d,
    }
}

pub open spec fn pair_first_or(o: Option<(String, String)>, d: Seq<char>) -> Seq<char> {
    match o {
        Some(x) => x.0@,
        None => d,
    }
}

/// The example commands with their comments.
pub open spec fn block_commands(ctx: BlockContext) -> Seq<(Seq<char>, Seq<char>)> {
    let ex = ctx.examples;
    let large = ctx.total_files >= LARGE_PROJECT_FILES;
    let ty = pair_first_or(ex.type_symbol, "<Type>"@);
    let func = pair_first_or(ex.function, "<function>"@);
    let file = opt_or(ex.file, "<file>"@);
    let ls_term = match ex.type_symbol {
        Some(x) => kind_term_spec(x.1@),
        None => "classes"@,
    };
    let ls = match ex.type_dir {
        Some(d) => "smartgrep ls "@ + ls_term + " --in "@ + d@,
        None => if ex.type_symbol is Some {
            "smartgrep ls "@ + ls_term
        } else {
            "smartgrep ls "@ + ls_term + " --in <dir>/"@
        },
    };
    seq![
        if large {
            ("smartgrep map --depth 1"@, "project layout, top-level dirs"@)
        } else {
            ("smartgrep map"@, "project layout: dirs, files, public symbols"@)
        },
        ("smartgrep context "@ + file, "symbols in one file"@),
        (ls, "list symbols of a kind under a path"@),
        ("smartgrep show "@ + ty, "signature, fields, location"@),
        ("smartgrep refs "@ + opt_or(ex.refs_target, ty), "who references / calls it"@),
        ("smartgrep deps "@ + opt_or(ex.deps_target, func), "what it calls and uses"@),
    ]
}

pub open spec fn command_line(c: (Seq<char>, Seq<char>), width: nat) -> Seq<char> {
    crate::text::pad_right(c.0, width) + "  # "@ + c.1
}

pub open spec fn command_lines(cmds: Seq<(Seq<char>, Seq<char>)>, width: nat) -> Seq<Seq<char>> {
    cmds.map_values(|c: (Seq<char>, Seq<char>)| command_line(c, width))
}

pub open spec fn command_width(cmds: Seq<(Seq<char>, Seq<char>)>) -> nat {
    crate::format::text::max_byte_len(cmds.map_values(|c: (Seq<char>, Seq<char>)| c.0))
}

/// The query example: scoped to the function's (or type's) directory, or
/// about the type when there is no directory.
pub open spec fn query_line(ctx: BlockContext) -> Seq<char> {
    let ex = ctx.examples;
    let fn_term = if ctx.languages@.len() > 1 {
        "functions"@
    } else {
        match ex.function {
            Some(x) => kind_term_spec(x.1@),
            None => "functions"@,
        }
    };
    let scope = match ex.function_dir {
        Some(d) => Some(d),
        None => ex.type_dir,
    };
    match scope {
        Some(d) => "smartgrep query \""@ + fn_term + " where file contains '"@ + d@
            + "' | show name, file, signature\""@,
        None => "smartgrep query \"symbol "@ + pair_first_or(ex.type_symbol, "<Type>"@) + " | with deps, refs\""@,
    }
}

pub open spec fn language_line(l: LangSpec) -> Seq<char> {
    "- "@ + l.display_name + ": "@ + join(l.kinds, ", "@)
}

pub open spec fn lang_specs(v: Seq<crate::lang::LanguageEntry>) -> Seq<LangSpec> {
    v.map_values(|l: crate::lang::LanguageEntry| l.spec())
}

pub open spec fn language_lines(v: Seq<LangSpec>) -> Seq<Seq<char>> {
    v.map_values(|l: LangSpec| language_line(l))
}

pub open spec fn block_head() -> Seq<Seq<char>> {
    seq![START_MARKER@, "## Code navigation: smartgrep"@, seq![], BLOCK_INTRO@, seq![], "```bash"@]
}

pub open spec fn block_mid(ctx: BlockContext) -> Seq<Seq<char>> {
    seq![query_line(ctx), "```"@, seq![], "Kinds use each language's own vocabulary (singular or plural):"@]
}

pub open spec fn block_tail(ctx: BlockContext) -> Seq<Seq<char>> {
    (if ctx.languages@.len() > 1 {
        seq!["- `functions` spans free functions in every language"@]
    } else {
        seq![]
    }) + (if ctx.total_files >= LARGE_PROJECT_FILES {
        seq![
            seq![],
            "Large project ("@ + decimal(ctx.total_files as nat)
                + " files): always scope with `--in <path>` or `where file contains '<path>'`; don't run bare `ls` or `map`."@,
        ]
    } else {
        seq![]
    }) + seq![
        seq![],
        match ctx.skill_path {
            Some(p) => "Full reference (query DSL, more patterns): the smartgrep skill, `"@ + p@ + "`."@,
            None => "Full reference (query DSL, more patterns): the smartgrep skill (`smartgrep install-skill`)."@,
        },
        END_MARKER@,
    ]
}

/// The lines of the instruction block, markers included.
pub open spec fn block_lines(ctx: BlockContext) -> Seq<Seq<char>> {
    let cmds = block_commands(ctx);
    block_head() + command_lines(cmds, command_width(cmds)) + block_mid(ctx) + language_lines(
        lang_specs(ctx.languages@),
    ) + block_tail(ctx)
}

fn opt_str<'a>(o: &'a Option<String>, d: &'a str) -> (r: &'a str)
    ensures
        r@ == opt_or(*o, d@),
{
    match o {
        Some(x) => x.as_str(),
        None => d,
    }
}

fn pair_first<'a>(o: &'a Option<(String, String)>, d: &'a str) -> (r: &'a str)
    ensures
        r@ == pair_first_or(*o, d@),
{
    match o {
        Some(x) => x.0.as_str(),
        None => d,
    }
}

fn commands_of(ctx: &BlockContext) -> (r: Vec<(String, String)>)
    ensures
        r@.map_values(|c: (String, String)| (c.0@, c.1@)) == block_commands(*ctx),
{
    let ex = &ctx.examples;
    let large = ctx.total_files >= LARGE_PROJECT_FILES;
    let ty = pair_first(&ex.type_symbol, "<Type>");
    let func = pair_first(&ex.function, "<function>");
    let file = opt_str(&ex.file, "<file>");
    let ls_term = match &ex.type_symbol {
        Some(x) => kind_term(x.1.as_str()),
        None => owned("classes"),
    };
    let ls = match &ex.type_dir {
        Some(d) => {
            let mut l = cat("smartgrep ls ", ls_term.as_str());
            push_str(&mut l, " --in ");
            push_str(&mut l, d.as_str());
            l
        },
        None => if ex.type_symbol.is_some() {
            cat("smartgrep ls ", ls_term.as_str())
        } else {
            cat3("smartgrep ls ", ls_term.as_str(), " --in <dir>/")
        },
    };
    let mut r: Vec<(String, String)> = Vec::new();
    if large {
        r.push((owned("smartgrep map --depth 1"), owned("project layout, top-level dirs")));
    } else {
        r.push((owned("smartgrep map"), owned("project layout: dirs, files, public symbols")));
    }
    r.push((cat("smartgrep context ", file), owned("symbols in one file")));
    r.push((ls, owned("list symbols of a kind under a path")));
    r.push((cat("smartgrep show ", ty), owned("signature, fields, location")));
    r.push((cat("smartgrep refs ", opt_str(&ex.refs_target, ty)), owned("who references / calls it")));
    r.push((cat("smartgrep deps ", opt_str(&ex.deps_target, func)), owned("what it calls and uses")));
    assert(r@.map_values(|c: (String, String)| (c.0@, c.1@)) =~= block_commands(*ctx));
    r
}

fn command_text_lines(ctx: &BlockContext) -> (r: Vec<String>)
    ensures
        views(r@) == command_lines(block_commands(*ctx), command_width(block_commands(*ctx))),
{
    let cmds = commands_of(ctx);
    let ghost cv = block_commands(*ctx);
    let ghost firsts = cv.map_values(|c: (Seq<char>, Seq<char>)| c.0);
    let mut width: usize = 0;
    let mut i: usize = 0;
    while i < cmds.len()
        invariant
            i <= cmds.len(),
            cmds@.map_values(|c: (String, String)| (c.0@, c.1@)) == cv,
            firsts == cv.map_values(|c: (Seq<char>, Seq<char>)| c.0),
            width as nat == crate::format::text::max_byte_len(firsts.take(i as int)),
        decreases cmds.len() - i,
    {
        proof {
            crate::text::lemma_take_push(firsts, i as int);
        }
        assert(firsts[i as int] == cmds@[i as int].0@);
        let l = crate::text::byte_len_exec(cmds[i].0.as_str());
        if l > width {
            width = l;
        }
        i += 1;
    }
    assert(firsts.take(cmds.len() as int) =~= firsts);
    let mut lines: Vec<String> = Vec::new();
    let mut i: usize = 0;
    while i < cmds.len()
        invariant
            i <= cmds.len(),
            cmds@.map_values(|c: (String, String)| (c.0@, c.1@)) == cv,
            width as nat == command_width(cv),
            views(lines@) == command_lines(cv, width as nat).take(i as int),
        decreases cmds.len() - i,
    {
        let mut l = crate::text::pad(cmds[i].0.as_str(), width);
        push_str(&mut l, "  # ");
        push_str(&mut l, cmds[i].1.as_str());
        assert(cv[i as int] == (cmds@[i as int].0@, cmds@[i as int].1@));
        push_line(&mut lines, l);
        assert(command_lines(cv, width as nat).take(i + 1) =~= command_lines(cv, width as nat).take(i as int).push(
            command_line(cv[i as int], width as nat),
        ));
        i += 1;
    }
    assert(command_lines(cv, width as nat).take(cmds.len() as int) =~= command_lines(cv, width as nat));
    lines
}

fn query_text(ctx: &BlockContext) -> (r: String)
    ensures
        r@ == query_line(*ctx),
{
    let ex = &ctx.examples;
    let fn_term = if ctx.languages.len() > 1 {
        owned("functions")
    } else {
        match &ex.function {
            Some(x) => kind_term(x.1.as_str()),
            None => owned("functions"),
        }
    };
    let scope = match &ex.function_dir {
        Some(d) => Some(d),
        None => match &ex.type_dir {
            Some(d) => Some(d),
            None => None,
        },
    };
    match scope {
        Some(d) => {
            let mut q = cat3("smartgrep query \"", fn_term.as_str(), " where file contains '");
            push_str(&mut q, d.as_str());
            push_str(&mut q, "' | show name, file, signature\"");
            q
        },
        None => cat3("smartgrep query \"symbol ", pair_first(&ex.type_symbol, "<Type>"), " | with deps, refs\""),
    }
}

fn language_text_lines(langs: &Vec<crate::lang::LanguageEntry>) -> (r: Vec<String>)
    ensures
        views(r@) == language_lines(lang_specs(langs@)),
{
    let mut lines: Vec<String> = Vec::new();
    let mut i: usize = 0;
    while i < langs.len()
        invariant
            i <= langs.len(),
            views(lines@) == language_lines(lang_specs(langs@)).take(i as int),
        decreases langs.len() - i,
    {
        let l = &langs[i];
        let mut t = cat3("- ", l.display_name, ": ");
        let mut ks: Vec<String> = Vec::new();
        let mut k: usize = 0;
        while k < l.kinds.len()
            invariant
                k <= l.kinds.len(),
                views(ks@) == crate::lang::strs(l.kinds@).take(k as int),
            decreases l.kinds.len() - k,
        {
            push_line(&mut ks, owned(l.kinds[k]));
            assert(crate::lang::strs(l.kinds@).take(k + 1) =~= crate::lang::strs(l.kinds@).take(k as int).push(
                l.kinds@[k as int]@,
            ));
            k += 1;
        }
        assert(crate::lang::strs(l.kinds@).take(l.kinds.len() as int) =~= crate::lang::strs(l.kinds@));
        let j = join_strings(&ks, ", ");
        push_str(&mut t, j.as_str());
        push_line(&mut lines, t);
        assert(language_lines(lang_specs(langs@)).take(i + 1) =~= language_lines(lang_specs(langs@)).take(i as int).push(
            language_line(langs@[i as int].spec()),
        ));
        i += 1;
    }
    assert(language_lines(lang_specs(langs@)).take(langs.len() as int) =~= language_lines(lang_specs(langs@)));
    lines
}

fn tail_lines(ctx: &BlockContext) -> (r: Vec<String>)
    ensures
        views(r@) == block_tail(*ctx),
{
    let mut lines: Vec<String> = Vec::new();
    if ctx.languages.len() > 1 {
        push_line(&mut lines, owned("- `functions` spans free functions in every language"));
    }
    if ctx.total_files >= LARGE_PROJECT_FILES {
        push_line(&mut lines, String::new());
        let n = usize_to_string(ctx.total_files);
        push_line(
            &mut lines,
            cat3(
                "Large project (",
                n.as_str(),
                " files): always scope with `--in <path>` or `where file contains '<path>'`; don't run bare `ls` or `map`.",
            ),
        );
    }
    push_line(&mut lines, String::new());
    match &ctx.skill_path {
        Some(p) => push_line(
            &mut lines,
            cat3("Full reference (query DSL, more patterns): the smartgrep skill, `", p.as_str(), "`."),
        ),
        None => push_line(
            &mut lines,
            owned("Full reference (query DSL, more patterns): the smartgrep skill (`smartgrep install-skill`)."),
        ),
    }
    push_line(&mut lines, owned(END_MARKER));
    assert(views(lines@) =~= block_tail(*ctx));
    lines
}

/// Render the instruction block (markers included, no trailing newline).
pub fn render_block(ctx: &BlockContext) -> (r: String)
    ensures
        r@ == join(block_lines(*ctx), "\n"@),
{
    let mut lines: Vec<String> = Vec::new();
    push_line(&mut lines, owned(START_MARKER));
    push_line(&mut lines, owned("## Code navigation: smartgrep"));
    push_line(&mut lines, String::new());
    push_line(&mut lines, owned(BLOCK_INTRO));
    push_line(&mut lines, String::new());
    push_line(&mut lines, owned("```bash"));
    assert(views(lines@) =~= block_head());
    crate::text::extend_strings(&mut lines, command_text_lines(ctx));
    push_line(&mut lines, query_text(ctx));
    push_line(&mut lines, owned("```"));
    push_line(&mut lines, String::new());
    push_line(&mut lines, owned("Kinds use each language's own vocabulary (singular or plural):"));
    crate::text::extend_strings(&mut lines, language_text_lines(&ctx.languages));
    crate::text::extend_strings(&mut lines, tail_lines(ctx));
    assert(views(lines@) =~= block_lines(*ctx));
    join_strings(&lines, "\n")
}

// ---------------------------------------------------------------------------
// Choosing the examples
// ---------------------------------------------------------------------------

/// The directory of a file with a trailing `/`, if it has a non-empty one.
pub open spec fn dir_of_spec(p: Seq<char>) -> Option<Seq<char>> {
    match parent_spec(p) {
        None => None,
        Some(d) => {
            let q = replace_char(d, '\\', '/');
            if q.len() == 0 {
                None
            } else {
                Some(q + "/"@)
            }
        },
    }
}

fn dir_of(path: &str) -> (r: Option<String>)
    ensures
        match r {
            Some(d) => dir_of_spec(path@) == Some(d@),
            None => dir_of_spec(path@) is None,
        },
{
    match crate::paths::parent_dir(path) {
        None => None,
        Some(d) => {
            let q = crate::paths::to_slash_with(d.as_str(), '\\');
            if chars_of(q.as_str()).len() == 0 {
                None
            } else {
                Some(cat(q.as_str(), "/"))
            }
        },
    }
}

pub open spec fn test_dirs() -> Seq<Seq<char>> {
    seq!["test"@, "tests"@, "testing"@, "__tests__"@, "spec"@, "specs"@, "fixtures"@, "testdata"@]
}

pub open spec fn top_dirs() -> Seq<Seq<char>> {
    seq!["example"@, "examples"@, "docs"@, "bench"@, "benches"@, "benchmarks"@]
}

/// The directory components of a path's parent, as `Path::components`
/// lists them (a leading `/` or `.` counts as a component).
pub open spec fn dir_components(p: Seq<char>) -> Seq<Seq<char>> {
    match parent_spec(p) {
        None => seq![],
        Some(d) => (if starts_with(d, "/"@) {
            seq!["/"@]
        } else if d == "."@ || starts_with(d, "./"@) {
            seq!["."@]
        } else {
            seq![]
        }) + components(d),
    }
}

/// The part of a file name before its first `.`.
pub open spec fn stem_of(f: Seq<char>) -> Seq<char> {
    match find(f, "."@) {
        Some(i) => f.take(i),
        None => f,
    }
}

/// Some directory is a test directory, or the first is an examples, docs or
/// benchmarks directory.
pub open spec fn in_test_dir(dirs: Seq<Seq<char>>) -> bool {
    (exists|i: int| 0 <= i < dirs.len() && test_dirs().contains(#[trigger] dirs[i])) || (dirs.len() > 0
        && top_dirs().contains(dirs[0]))
}

pub open spec fn test_stem(stem: Seq<char>) -> bool {
    starts_with(stem, "test_"@) || ends_with(stem, "_test"@) || ends_with(stem, "Test"@) || ends_with(
        stem,
        "Tests"@,
    ) || stem == "conftest"@
}

pub open spec fn test_fname(fname: Seq<char>) -> bool {
    contains(fname, ".test."@) || contains(fname, ".spec."@)
}

/// The file name marks a test.
pub open spec fn test_file_name(p: Seq<char>) -> bool {
    let fname = match file_name(p) {
        Some(f) => f,
        None => seq![],
    };
    test_stem(stem_of(fname)) || test_fname(fname)
}

/// A file under a test directory (at any depth) or a top-level examples,
/// docs or benchmarks directory, or whose name marks it as a test.
pub open spec fn is_test_or_example_spec(p: Seq<char>) -> bool {
    in_test_dir(dir_components(p)) || test_file_name(p)
}

fn in_list(v: &Vec<&'static str>, s: &str) -> (r: bool)
    ensures
        r == crate::lang::strs(v@).contains(s@),
{
    crate::lang::str_in(v, s)
}

fn dir_parts(path: &str) -> (r: Vec<String>)
    ensures
        views(r@) == dir_components(path@),
{
    let mut dirs: Vec<String> = Vec::new();
    match crate::paths::parent_dir(path) {
        None => {},
        Some(d) => {
            if crate::text::str_starts_with(d.as_str(), "/") {
                push_line(&mut dirs, owned("/"));
            } else if str_eq(d.as_str(), ".") || crate::text::str_starts_with(d.as_str(), "./") {
                push_line(&mut dirs, owned("."));
            }
            crate::text::extend_strings(&mut dirs, crate::paths::path_components(d.as_str()));
        },
    }
    assert(views(dirs@) =~= dir_components(path@));
    dirs
}

fn test_dir_in(dirs: &Vec<String>) -> (r: bool)
    ensures
        r == in_test_dir(views(dirs@)),
{
    let td: Vec<&'static str> = vec!["test", "tests", "testing", "__tests__", "spec", "specs", "fixtures", "testdata"];
    let tp: Vec<&'static str> = vec!["example", "examples", "docs", "bench", "benches", "benchmarks"];
    assert(crate::lang::strs(td@) =~= test_dirs());
    assert(crate::lang::strs(tp@) =~= top_dirs());
    let ghost dv = views(dirs@);
    let mut in_dir = false;
    let mut i: usize = 0;
    while i < dirs.len()
        invariant
            i <= dirs.len(),
            dv == views(dirs@),
            crate::lang::strs(td@) == test_dirs(),
            in_dir == exists|j: int| 0 <= j < i && test_dirs().contains(#[trigger] dv[j]),
        decreases dirs.len() - i,
    {
        assert(dv[i as int] == dirs@[i as int]@);
        if in_list(&td, dirs[i].as_str()) {
            in_dir = true;
        }
        i += 1;
    }
    if dirs.len() > 0 {
        assert(dv[0] == dirs@[0]@);
        if in_list(&tp, dirs[0].as_str()) {
            in_dir = true;
        }
    }
    in_dir
}

fn stem_exec(fname: &str) -> (r: String)
    ensures
        r@ == stem_of(fname@),
{
    let fv = chars_of(fname);
    let dot = chars_of(".");
    match crate::text::find_exec(&fv, &dot) {
        Some(k) => string_of(&fv, 0, k),
        None => owned(fname),
    }
}

fn test_stem_exec(st: &str) -> (r: bool)
    ensures
        r == test_stem(st@),
{
    crate::text::str_starts_with(st, "test_") || crate::text::str_ends_with(st, "_test")
        || crate::text::str_ends_with(st, "Test") || crate::text::str_ends_with(st, "Tests") || str_eq(
        st,
        "conftest",
    )
}

fn test_fname_exec(f: &str) -> (r: bool)
    ensures
        r == test_fname(f@),
{
    crate::text::str_contains(f, ".test.") || crate::text::str_contains(f, ".spec.")
}

fn test_name(path: &str) -> (r: bool)
    ensures
        r == test_file_name(path@),
{
    let fname = match crate::paths::file_name_of(path) {
        Some(f) => f,
        None => String::new(),
    };
    let stem = stem_exec(fname.as_str());
    test_stem_exec(stem.as_str()) || test_fname_exec(fname.as_str())
}

fn is_test_or_example_path(path: &str) -> (r: bool)
    ensures
        r == is_test_or_example_spec(path@),
{
    let dirs = dir_parts(path);
    test_dir_in(&dirs) || test_name(path)
}

/// A symbol whose name makes a good example: public, at least three bytes,
/// not starting with `_`, letters, digits and `_` only, and not in test,
/// example or generated code.
pub open spec fn eligible(s: Symbol) -> bool {
    &&& s.visibility == Visibility::Public
    &&& byte_len(s.name@) >= 3
    &&& !starts_with(s.name@, "_"@)
    &&& forall|i: int| 0 <= i < s.name@.len() ==> (is_alphanumeric(#[trigger] s.name@[i]) || s.name@[i] == '_')
    &&& !is_test_or_example_spec(s.loc.file@)
    &&& !is_generated_spec(s.loc.file@)
}

pub open spec fn eligible_symbols(ss: Seq<Symbol>) -> Seq<Symbol> {
    ss.filter(|s: Symbol| eligible(s))
}

/// How a symbol ranks as an example.
pub struct ExampleKey {
    pub ambiguous: bool,
    pub unreferenced: bool,
    pub no_deps: bool,
    pub refs: nat,
    pub name: Seq<char>,
    pub file: Seq<char>,
}

pub open spec fn example_key(s: Symbol, ss: Seq<Symbol>, ds: Seq<Dependency>) -> ExampleKey {
    let refs = ds.filter(refs_pred(s.name@)).len();
    ExampleKey {
        ambiguous: symbols_named(ss, s.name@).len() != 1,
        unreferenced: refs == 0,
        no_deps: deps_from(ds, s.qualified_name@).len() == 0,
        refs,
        name: s.name@,
        file: s.loc.file@,
    }
}

/// Path components ranked as `Path::components` orders them: the root,
/// then a leading `.`, then `..`, then names.
pub open spec fn ranked_components(p: Seq<char>) -> Seq<(int, Seq<char>)> {
    (if starts_with(p, "/"@) {
        seq![(1int, Seq::<char>::empty())]
    } else if p == "."@ || starts_with(p, "./"@) {
        seq![(2int, Seq::<char>::empty())]
    } else {
        seq![]
    }) + components(p).map_values(|c: Seq<char>| if c == ".."@ { (3int, Seq::<char>::empty()) } else { (4int, c) })
}

pub open spec fn component_order(a: (int, Seq<char>), b: (int, Seq<char>)) -> int {
    if a.0 < b.0 {
        -1
    } else if a.0 > b.0 {
        1
    } else {
        lex_order(a.1, b.1)
    }
}

pub open spec fn components_order(a: Seq<(int, Seq<char>)>, b: Seq<(int, Seq<char>)>) -> int
    decreases a.len(),
{
    if a.len() == 0 {
        if b.len() == 0 { 0 } else { -1 }
    } else if b.len() == 0 {
        1
    } else if component_order(a[0], b[0]) != 0 {
        component_order(a[0], b[0])
    } else {
        components_order(a.drop_first(), b.drop_first())
    }
}

/// Paths ordered component by component, as `PathBuf` orders them.
pub open spec fn path_order(a: Seq<char>, b: Seq<char>) -> int {
    components_order(ranked_components(a), ranked_components(b))
}

/// Does key `x` rank strictly before key `y`? Unambiguous names first, then
/// referenced ones, then those with dependencies, then more references, then
/// by name and file.
pub open spec fn key_before(x: ExampleKey, y: ExampleKey) -> bool {
    if x.ambiguous != y.ambiguous {
        !x.ambiguous
    } else if x.unreferenced != y.unreferenced {
        !x.unreferenced
    } else if x.no_deps != y.no_deps {
        !x.no_deps
    } else if x.refs != y.refs {
        x.refs > y.refs
    } else if x.name != y.name {
        lex_order(x.name, y.name) < 0
    } else {
        path_order(x.file, y.file) < 0
    }
}

/// The best example among the candidates: the first one that no later one
/// ranks before.
pub open spec fn best_spec(cands: Seq<Symbol>, ss: Seq<Symbol>, ds: Seq<Dependency>) -> Option<Symbol>
    decreases cands.len(),
{
    if cands.len() == 0 {
        None
    } else {
        match best_spec(cands.drop_last(), ss, ds) {
            None => Some(cands.last()),
            Some(b) => if key_before(example_key(cands.last(), ss, ds), example_key(b, ss, ds)) {
                Some(cands.last())
            } else {
                Some(b)
            },
        }
    }
}

/// The kinds of example a pick looks for.
pub open spec fn wanted(which: u8, s: Symbol, ds: Seq<Dependency>) -> bool {
    let k = s.kind@;
    if which == 0 {
        k == "struct"@ || k == "class"@ || k == "interface"@ || k == "trait"@ || k == "record"@
    } else if which == 1 {
        is_type_kind_spec(k)
    } else if which == 2 {
        is_function_kind_spec(k)
    } else if which == 3 {
        k == "method"@
    } else {
        is_callable_kind_spec(k) && deps_from(ds, s.qualified_name@).len() > 0
    }
}

pub open spec fn pick_spec(which: u8, ss: Seq<Symbol>, ds: Seq<Dependency>) -> Option<Symbol> {
    best_spec(eligible_symbols(ss).filter(|s: Symbol| wanted(which, s, ds)), ss, ds)
}

fn name_ok(name: &str) -> (r: bool)
    ensures
        r == (forall|i: int| 0 <= i < name@.len() ==> (is_alphanumeric(#[trigger] name@[i]) || name@[i] == '_')),
{
    let v = chars_of(name);
    let mut i: usize = 0;
    while i < v.len()
        invariant
            i <= v.len(),
            v@ == name@,
            forall|j: int| 0 <= j < i ==> (is_alphanumeric(#[trigger] name@[j]) || name@[j] == '_'),
        decreases v.len() - i,
    {
        if !(crate::text::char_is_alphanumeric(v[i]) || v[i] == '_') {
            return false;
        }
        i += 1;
    }
    true
}

fn is_eligible(s: &Symbol) -> (r: bool)
    ensures
        r == eligible(*s),
{
    s.visibility == Visibility::Public && crate::text::byte_len_exec(s.name.as_str()) >= 3
        && !crate::text::str_starts_with(s.name.as_str(), "_") && name_ok(s.name.as_str())
        && !is_test_or_example_path(s.loc.file.as_str()) && !crate::commands::map::is_generated(s.loc.file.as_str())
}

fn ranked(p: &str) -> (r: Vec<(u8, String)>)
    ensures
        r@.map_values(|c: (u8, String)| (c.0 as int, c.1@)) == ranked_components(p@),
{
    let mut r: Vec<(u8, String)> = Vec::new();
    if crate::text::str_starts_with(p, "/") {
        r.push((1, String::new()));
    } else if str_eq(p, ".") || crate::text::str_starts_with(p, "./") {
        r.push((2, String::new()));
    }
    let ghost pre = r@.map_values(|c: (u8, String)| (c.0 as int, c.1@));
    let comps = crate::paths::path_components(p);
    let ghost cv = views(comps@);
    let ghost f = |c: Seq<char>| if c == ".."@ { (3int, Seq::<char>::empty()) } else { (4int, c) };
    let mut i: usize = 0;
    while i < comps.len()
        invariant
            i <= comps.len(),
            cv == views(comps@),
            f == (|c: Seq<char>| if c == ".."@ { (3int, Seq::<char>::empty()) } else { (4int, c) }),
            r@.map_values(|c: (u8, String)| (c.0 as int, c.1@)) == pre + cv.take(i as int).map_values(f),
        decreases comps.len() - i,
    {
        let ghost before = r@.map_values(|c: (u8, String)| (c.0 as int, c.1@));
        if str_eq(comps[i].as_str(), "..") {
            r.push((3, String::new()));
        } else {
            r.push((4, comps[i].clone()));
        }
        assert(r@.map_values(|c: (u8, String)| (c.0 as int, c.1@)) =~= before.push(f(cv[i as int])));
        assert(cv.take(i + 1).map_values(f) =~= cv.take(i as int).map_values(f).push(f(cv[i as int])));
        assert(pre + cv.take(i + 1).map_values(f) =~= (pre + cv.take(i as int).map_values(f)).push(f(cv[i as int])));
        i += 1;
    }
    assert(cv.take(comps.len() as int) =~= cv);
    assert(r@.map_values(|c: (u8, String)| (c.0 as int, c.1@)) =~= ranked_components(p@));
    r
}

fn path_compare(a: &str, b: &str) -> (r: i8)
    ensures
        r as int == path_order(a@, b@),
{
    let x = ranked(a);
    let y = ranked(b);
    let ghost xv = x@.map_values(|c: (u8, String)| (c.0 as int, c.1@));
    let ghost yv = y@.map_values(|c: (u8, String)| (c.0 as int, c.1@));
    let mut i: usize = 0;
    assert(xv.skip(0) =~= xv);
    assert(yv.skip(0) =~= yv);
    while i < x.len() && i < y.len()
        invariant
            i <= x.len(),
            i <= y.len(),
            xv == x@.map_values(|c: (u8, String)| (c.0 as int, c.1@)),
            yv == y@.map_values(|c: (u8, String)| (c.0 as int, c.1@)),
            path_order(a@, b@) == components_order(xv.skip(i as int), yv.skip(i as int)),
        decreases x.len() - i,
    {
        assert(xv.skip(i as int)[0] == xv[i as int]);
        assert(yv.skip(i as int)[0] == yv[i as int]);
        let c: i8 = if x[i].0 < y[i].0 {
            -1
        } else if x[i].0 > y[i].0 {
            1
        } else {
            let xs = chars_of(x[i].1.as_str());
            let ys = chars_of(y[i].1.as_str());
            crate::query::engine::lex_compare(&xs, &ys)
        };
        if c != 0 {
            return c;
        }
        assert(xv.skip(i as int).drop_first() =~= xv.skip(i + 1));
        assert(yv.skip(i as int).drop_first() =~= yv.skip(i + 1));
        i += 1;
    }
    if i == x.len() {
        if i == y.len() {
            0
        } else {
            -1
        }
    } else {
        1
    }
}

struct KeyVals {
    ambiguous: bool,
    unreferenced: bool,
    no_deps: bool,
    refs: usize,
}

fn key_vals(s: &Symbol, index: &Index) -> (r: KeyVals)
    ensures
        r.ambiguous == example_key(*s, index.symbols@, index.deps@).ambiguous,
        r.unreferenced == example_key(*s, index.symbols@, index.deps@).unreferenced,
        r.no_deps == example_key(*s, index.symbols@, index.deps@).no_deps,
        r.refs as nat == example_key(*s, index.symbols@, index.deps@).refs,
{
    let named = index.by_name(s.name.as_str());
    let deps = index.deps_of(s.qualified_name.as_str());
    let refs = index.refs_to(s.name.as_str());
    KeyVals { ambiguous: named.len() != 1, unreferenced: refs.len() == 0, no_deps: deps.len() == 0, refs: refs.len() }
}

fn before(a: &Symbol, b: &Symbol, index: &Index) -> (r: bool)
    ensures
        r == key_before(example_key(*a, index.symbols@, index.deps@), example_key(*b, index.symbols@, index.deps@)),
{
    let x = key_vals(a, index);
    let y = key_vals(b, index);
    if x.ambiguous != y.ambiguous {
        !x.ambiguous
    } else if x.unreferenced != y.unreferenced {
        !x.unreferenced
    } else if x.no_deps != y.no_deps {
        !x.no_deps
    } else if x.refs != y.refs {
        x.refs > y.refs
    } else if !str_eq(a.name.as_str(), b.name.as_str()) {
        let xs = chars_of(a.name.as_str());
        let ys = chars_of(b.name.as_str());
        crate::query::engine::lex_compare(&xs, &ys) < 0
    } else {
        path_compare(a.loc.file.as_str(), b.loc.file.as_str()) < 0
    }
}

fn wanted_exec(which: u8, s: &Symbol, index: &Index) -> (r: bool)
    ensures
        r == wanted(which, *s, index.deps@),
{
    let k = s.kind.as_str();
    if which == 0 {
        str_eq(k, "struct") || str_eq(k, "class") || str_eq(k, "interface") || str_eq(k, "trait") || str_eq(
            k,
            "record",
        )
    } else if which == 1 {
        crate::ir::kinds::is_type_kind(k)
    } else if which == 2 {
        crate::ir::kinds::is_function_kind(k)
    } else if which == 3 {
        str_eq(k, "method")
    } else {
        crate::ir::kinds::is_callable_kind(k) && index.deps_of(s.qualified_name.as_str()).len() > 0
    }
}

fn pick<'a>(index: &'a Index, which: u8) -> (r: Option<&'a Symbol>)
    ensures
        match r {
            Some(s) => pick_spec(which, index.symbols@, index.deps@) == Some(*s),
            None => pick_spec(which, index.symbols@, index.deps@) is None,
        },
{
    let ghost ss = index.symbols@;
    let ghost ds = index.deps@;
    let ghost pe = |s: Symbol| eligible(s);
    let ghost pw = |s: Symbol| wanted(which, s, ds);
    let ghost cands = eligible_symbols(ss).filter(pw);
    // Walk the symbols once, keeping the candidates seen so far.
    let ghost mut seen: Seq<Symbol> = seq![];
    let mut best: Option<&'a Symbol> = None;
    let mut i: usize = 0;
    while i < index.symbols.len()
        invariant
            i <= index.symbols.len(),
            ss == index.symbols@,
            ds == index.deps@,
            pe == (|s: Symbol| eligible(s)),
            pw == (|s: Symbol| wanted(which, s, ds)),
            seen == ss.take(i as int).filter(pe).filter(pw),
            match best {
                Some(b) => best_spec(seen, ss, ds) == Some(*b),
                None => best_spec(seen, ss, ds) is None,
            },
        decreases index.symbols.len() - i,
    {
        let s = &index.symbols[i];
        proof {
            crate::index::types::lemma_filter_step(ss, i as int, pe);
        }
        if is_eligible(s) && wanted_exec(which, s, index) {
            proof {
                ss.take(i as int).filter(pe).lemma_filter_push(ss[i as int], pw);
                assert(ss.take(i + 1).filter(pe) == ss.take(i as int).filter(pe).push(ss[i as int]));
                assert(seen.push(*s).drop_last() =~= seen);
            }
            best = match best {
                None => Some(s),
                Some(b) => if before(s, b, index) {
                    Some(s)
                } else {
                    Some(b)
                },
            };
            proof {
                seen = seen.push(*s);
            }
        } else {
            proof {
                if eligible(*s) {
                    ss.take(i as int).filter(pe).lemma_filter_push(ss[i as int], pw);
                }
            }
        }
        i += 1;
    }
    assert(ss.take(index.symbols.len() as int) =~= ss);
    assert(eligible_symbols(ss) == ss.filter(pe));
    best
}

/// A view of the examples.
pub open spec fn opt_pair(o: Option<Symbol>) -> Option<(Seq<char>, Seq<char>)> {
    match o {
        Some(s) => Some((s.name@, s.kind@)),
        None => None,
    }
}

pub open spec fn opt_name(o: Option<Symbol>) -> Option<Seq<char>> {
    match o {
        Some(s) => Some(s.name@),
        None => None,
    }
}

pub open spec fn has_refs(s: Symbol, ds: Seq<Dependency>) -> bool {
    ds.filter(refs_pred(s.name@)).len() > 0
}

pub open spec fn has_deps(s: Symbol, ds: Seq<Dependency>) -> bool {
    deps_from(ds, s.qualified_name@).len() > 0
}

pub open spec fn keep_if(o: Option<Symbol>, b: bool) -> Option<Symbol> {
    if b { o } else { None }
}

pub open spec fn or_else(a: Option<Symbol>, b: Option<Symbol>) -> Option<Symbol> {
    match a {
        Some(x) => Some(x),
        None => b,
    }
}

/// The chosen type and function: the best public struct-like type (else any
/// type), and the best free function (else method).
pub open spec fn example_type(ss: Seq<Symbol>, ds: Seq<Dependency>) -> Option<Symbol> {
    or_else(pick_spec(0, ss, ds), pick_spec(1, ss, ds))
}

pub open spec fn example_function(ss: Seq<Symbol>, ds: Seq<Dependency>) -> Option<Symbol> {
    or_else(pick_spec(2, ss, ds), pick_spec(3, ss, ds))
}

pub open spec fn refs_target_spec(ss: Seq<Symbol>, ds: Seq<Dependency>) -> Option<Symbol> {
    let ty = example_type(ss, ds);
    let func = example_function(ss, ds);
    or_else(
        keep_if(ty, ty matches Some(t) && has_refs(t, ds)),
        or_else(keep_if(func, func matches Some(f) && has_refs(f, ds)), or_else(ty, func)),
    )
}

pub open spec fn deps_target_spec(ss: Seq<Symbol>, ds: Seq<Dependency>) -> Option<Symbol> {
    let ty = example_type(ss, ds);
    let func = example_function(ss, ds);
    or_else(
        keep_if(func, func matches Some(f) && has_deps(f, ds)),
        or_else(
            pick_spec(4, ss, ds),
            or_else(keep_if(ty, ty matches Some(t) && has_deps(t, ds)), or_else(func, ty)),
        ),
    )
}

pub open spec fn opt_string(o: Option<String>) -> Option<Seq<char>> {
    match o {
        Some(s) => Some(s@),
        None => None,
    }
}

pub open spec fn opt_string_pair(o: Option<(String, String)>) -> Option<(Seq<char>, Seq<char>)> {
    match o {
        Some(p) => Some((p.0@, p.1@)),
        None => None,
    }
}

/// What [`Examples`] holds.
pub struct ExamplesV {
    pub type_symbol: Option<(Seq<char>, Seq<char>)>,
    pub function: Option<(Seq<char>, Seq<char>)>,
    pub file: Option<Seq<char>>,
    pub type_dir: Option<Seq<char>>,
    pub function_dir: Option<Seq<char>>,
    pub refs_target: Option<Seq<char>>,
    pub deps_target: Option<Seq<char>>,
}

pub open spec fn examples_view(e: Examples) -> ExamplesV {
    ExamplesV {
        type_symbol: opt_string_pair(e.type_symbol),
        function: opt_string_pair(e.function),
        file: opt_string(e.file),
        type_dir: opt_string(e.type_dir),
        function_dir: opt_string(e.function_dir),
        refs_target: opt_string(e.refs_target),
        deps_target: opt_string(e.deps_target),
    }
}

pub open spec fn sym_dir(o: Option<Symbol>) -> Option<Seq<char>> {
    match o {
        Some(s) => dir_of_spec(s.loc.file@),
        None => None,
    }
}

/// The examples chosen from an index.
pub open spec fn examples_spec(ss: Seq<Symbol>, ds: Seq<Dependency>) -> ExamplesV {
    let ty = example_type(ss, ds);
    let func = example_function(ss, ds);
    ExamplesV {
        type_symbol: opt_pair(ty),
        function: opt_pair(func),
        file: match or_else(ty, func) {
            Some(s) => Some(replace_char(s.loc.file@, '\\', '/')),
            None => None,
        },
        type_dir: sym_dir(ty),
        function_dir: sym_dir(func),
        refs_target: opt_name(refs_target_spec(ss, ds)),
        deps_target: opt_name(deps_target_spec(ss, ds)),
    }
}

pub open spec fn ref_opt(o: Option<&Symbol>) -> Option<Symbol> {
    match o {
        Some(s) => Some(*s),
        None => None,
    }
}

fn first_of<'a>(a: Option<&'a Symbol>, b: Option<&'a Symbol>) -> (r: Option<&'a Symbol>)
    ensures
        ref_opt(r) == or_else(ref_opt(a), ref_opt(b)),
{
    match a {
        Some(x) => Some(x),
        None => b,
    }
}

fn with_refs<'a>(o: Option<&'a Symbol>, index: &Index) -> (r: Option<&'a Symbol>)
    ensures
        ref_opt(r) == keep_if(ref_opt(o), ref_opt(o) matches Some(t) && has_refs(t, index.deps@)),
{
    match o {
        Some(s) => if index.refs_to(s.name.as_str()).len() > 0 {
            Some(s)
        } else {
            None
        },
        None => None,
    }
}

fn with_deps<'a>(o: Option<&'a Symbol>, index: &Index) -> (r: Option<&'a Symbol>)
    ensures
        ref_opt(r) == keep_if(ref_opt(o), ref_opt(o) matches Some(t) && has_deps(t, index.deps@)),
{
    match o {
        Some(s) => if index.deps_of(s.qualified_name.as_str()).len() > 0 {
            Some(s)
        } else {
            None
        },
        None => None,
    }
}

fn pick_ref<'a>(index: &'a Index, which: u8) -> (r: Option<&'a Symbol>)
    ensures
        ref_opt(r) == pick_spec(which, index.symbols@, index.deps@),
{
    pick(index, which)
}

fn sym_pair(o: Option<&Symbol>) -> (r: Option<(String, String)>)
    ensures
        opt_string_pair(r) == opt_pair(ref_opt(o)),
{
    match o {
        Some(s) => Some((s.name.clone(), s.kind.clone())),
        None => None,
    }
}

fn sym_name(o: Option<&Symbol>) -> (r: Option<String>)
    ensures
        opt_string(r) == opt_name(ref_opt(o)),
{
    match o {
        Some(s) => Some(s.name.clone()),
        None => None,
    }
}

fn sym_dir_exec(o: Option<&Symbol>) -> (r: Option<String>)
    ensures
        opt_string(r) == sym_dir(ref_opt(o)),
{
    match o {
        Some(s) => dir_of(s.loc.file.as_str()),
        None => None,
    }
}

/// Choose real symbols from the index for the block's examples.
pub fn pick_examples(index: &Index) -> (r: Examples)
    ensures
        examples_view(r) == examples_spec(index.symbols@, index.deps@),
{
    let ty = first_of(pick_ref(index, 0), pick_ref(index, 1));
    let func = first_of(pick_ref(index, 2), pick_ref(index, 3));
    let refs_target = first_of(with_refs(ty, index), first_of(with_refs(func, index), first_of(ty, func)));
    let deps_target = first_of(
        with_deps(func, index),
        first_of(pick_ref(index, 4), first_of(with_deps(ty, index), first_of(func, ty))),
    );
    let file = match first_of(ty, func) {
        Some(s) => Some(rel_display(s.loc.file.as_str())),
        None => None,
    };
    Examples {
        type_symbol: sym_pair(ty),
        function: sym_pair(func),
        file,
        type_dir: sym_dir_exec(ty),
        function_dir: sym_dir_exec(func),
        refs_target: sym_name(refs_target),
        deps_target: sym_name(deps_target),
    }
}

// ---------------------------------------------------------------------------
// Detected languages and the plan
// ---------------------------------------------------------------------------

/// Does the registry entry handle the source file?
pub open spec fn handles(l: LangSpec, p: Seq<char>) -> bool {
    lang_for_path(p) matches Some(x) && x.name == l.name
}

/// Number of source files a language handles.
pub open spec fn source_count(srcs: Seq<Seq<char>>, l: LangSpec) -> nat {
    srcs.filter(|p: Seq<char>| handles(l, p)).len()
}

/// (language, source file count) for the registered languages present, in
/// registry order.
pub open spec fn detected_spec(srcs: Seq<Seq<char>>) -> Seq<(LangSpec, nat)> {
    registry().map_values(|l: LangSpec| (l, source_count(srcs, l))).filter(|x: (LangSpec, nat)| x.1 > 0)
}

pub open spec fn detected_view(v: Seq<(LanguageEntry, usize)>) -> Seq<(LangSpec, nat)> {
    v.map_values(|x: (LanguageEntry, usize)| (x.0.spec(), x.1 as nat))
}

/// Count source files per registered language; the languages present, in
/// registry order, with their counts.
pub fn detect_languages(sources: &Vec<String>) -> (r: Vec<(LanguageEntry, usize)>)
    ensures
        detected_view(r@) == detected_spec(views(sources@)),
{
    let ghost sv = views(sources@);
    let ghost pos = |x: (LangSpec, nat)| x.1 > 0;
    let ghost all = registry().map_values(|l: LangSpec| (l, source_count(sv, l)));
    let langs = languages();
    let mut out: Vec<(LanguageEntry, usize)> = Vec::new();
    let mut i: usize = 0;
    while i < langs.len()
        invariant
            i <= langs.len(),
            sv == views(sources@),
            langs@.len() == registry().len(),
            forall|j: int| 0 <= j < langs@.len() ==> #[trigger] langs@[j].spec() == registry()[j],
            pos == (|x: (LangSpec, nat)| x.1 > 0),
            all == registry().map_values(|l: LangSpec| (l, source_count(sv, l))),
            detected_view(out@) == all.take(i as int).filter(pos),
        decreases langs.len() - i,
    {
        let l = &langs[i];
        let ghost ls = registry()[i as int];
        assert(l.spec() == ls);
        let ghost ph = |p: Seq<char>| handles(ls, p);
        let mut n: usize = 0;
        let mut k: usize = 0;
        while k < sources.len()
            invariant
                k <= sources.len(),
                sv == views(sources@),
                l.spec() == ls,
                ph == (|p: Seq<char>| handles(ls, p)),
                n as nat == sv.take(k as int).filter(ph).len(),
                n <= k,
            decreases sources.len() - k,
        {
            proof {
                crate::index::types::lemma_filter_step(sv, k as int, ph);
            }
            assert(sv[k as int] == sources@[k as int]@);
            match language_for_path(sources[k].as_str()) {
                Some(x) => {
                    if str_eq(x.name, l.name) {
                        n = n + 1;
                    }
                },
                None => {},
            }
            k += 1;
        }
        assert(sv.take(sources.len() as int) =~= sv);
        proof {
            crate::index::types::lemma_filter_step(all, i as int, pos);
            assert(all[i as int] == (ls, source_count(sv, ls)));
        }
        let ghost before = detected_view(out@);
        if n > 0 {
            out.push((langs[i].clone_language(), n));
            assert(detected_view(out@) =~= before.push((ls, n as nat)));
        }
        i += 1;
    }
    assert(all.take(langs.len() as int) =~= all);
    out
}

/// What `init` found on disk, besides the sources.
pub struct ProjectFiles {
    /// Content of the assistant's own instruction file, if it exists.
    pub primary_md: Option<String>,
    /// Content of `AGENTS.md`, if it exists.
    pub agents_md: Option<String>,
    /// Content of the installed skill, if it exists.
    pub skill: Option<String>,
    /// Whether the project is a git repository.
    pub git: bool,
    /// Content of `.gitignore`, if it exists.
    pub gitignore: Option<String>,
}

/// The names a coding assistant reads: its own instruction file (written
/// beside `AGENTS.md`) and the directory that holds its skills.
pub struct AssistantFiles {
    pub instructions: String,
    pub config_dir: String,
}

/// The instruction files to write: the existing ones of the primary file
/// and `AGENTS.md`, the primary file when neither exists, and `AGENTS.md`
/// when asked.
pub open spec fn targets_spec(primary: Seq<char>, has_primary: bool, agents: bool, want_agents: bool) -> Seq<Seq<char>> {
    let base = (if has_primary {
        seq![primary]
    } else {
        seq![]
    }) + (if agents {
        seq!["AGENTS.md"@]
    } else {
        seq![]
    });
    let base = if base.len() == 0 {
        seq![primary]
    } else {
        base
    };
    if want_agents && !base.contains("AGENTS.md"@) {
        base.push("AGENTS.md"@)
    } else {
        base
    }
}

pub open spec fn existing_for(f: Seq<char>, primary: Seq<char>, files: ProjectFiles) -> Option<Seq<char>> {
    if f == primary {
        opt_string(files.primary_md)
    } else {
        opt_string(files.agents_md)
    }
}

pub open spec fn total_count(v: Seq<(LanguageEntry, usize)>) -> nat
    decreases v.len(),
{
    if v.len() == 0 {
        0
    } else {
        total_count(v.drop_last()) + v.last().1 as nat
    }
}

/// A block context for the detected languages, the index's examples and the
/// skill location.
pub open spec fn context_fits(
    c: BlockContext,
    detected: Seq<(LanguageEntry, usize)>,
    ss: Seq<Symbol>,
    ds: Seq<Dependency>,
    skill: Option<Seq<char>>,
) -> bool {
    &&& lang_specs(c.languages@) == detected.map_values(|x: (LanguageEntry, usize)| x.0.spec())
    &&& c.total_files as nat == total_count(detected)
    &&& examples_view(c.examples) == examples_spec(ss, ds)
    &&& opt_string(c.skill_path) == skill
}

pub open spec fn skill_rel(config_dir: Seq<char>) -> Seq<char> {
    skill_path_spec(seq![], config_dir)
}

/// Where the block says the skill is: its repo-relative path when it is to
/// be installed or already there.
pub open spec fn skill_mention(opts: InitOptions, files: ProjectFiles, config_dir: Seq<char>) -> Option<Seq<char>> {
    if !opts.no_skill || files.skill is Some {
        Some(replace_char(skill_rel(config_dir), '\\', '/'))
    } else {
        None
    }
}

/// A plan's instruction file changes for the block: one per target, in
/// order, each the target's content with the block applied.
pub open spec fn instruction_changes_fit(
    v: Seq<FileChange>,
    targets: Seq<Seq<char>>,
    primary: Seq<char>,
    files: ProjectFiles,
    block: Seq<char>,
) -> bool {
    &&& v.len() == targets.len()
    &&& forall|i: int| 0 <= i < v.len() ==> {
        let e = existing_for(targets[i], primary, files);
        &&& (#[trigger] v[i]).rel_path@ == targets[i]
        &&& apply_block_spec(e, block) == Some(v[i].content@)
        &&& v[i].action == action_for(e, v[i].content@)
    }
}

pub open spec fn blocks_apply(targets: Seq<Seq<char>>, primary: Seq<char>, files: ProjectFiles, block: Seq<char>) -> bool {
    forall|i: int| 0 <= i < targets.len() ==> (apply_block_spec(existing_for(#[trigger] targets[i], primary, files), block) is Some)
}

fn opt_as_str(o: &Option<String>) -> (r: Option<&str>)
    ensures
        match r {
            Some(t) => opt_string(*o) == Some(t@),
            None => opt_string(*o) is None,
        },
{
    match o {
        Some(x) => Some(x.as_str()),
        None => None,
    }
}

/// Compute everything `init` would do, from the detected languages, the
/// index built from the sources and the files found (nothing is written).
/// Fails when no source file was found or an instruction file's markers are
/// malformed.
pub fn plan(
    root: &str,
    opts: &InitOptions,
    detected: Vec<(LanguageEntry, usize)>,
    index: &Index,
    files: &ProjectFiles,
    assistant: &AssistantFiles,
    skill_content: &str,
) -> (r: Result<Plan, String>)
    requires
        total_count(detected@) <= usize::MAX,
        assistant.instructions@ != "AGENTS.md"@,
    ensures
        detected@.len() == 0 ==> (r matches Err(m) && m@ == no_sources_message(root@)),
        detected@.len() > 0 ==> (r matches Err(m) ==> exists|j: int|
            0 <= j < targets_spec(assistant.instructions@, files.primary_md is Some, files.agents_md is Some, opts.agents_md).len()
                && (#[trigger] existing_for(
                targets_spec(assistant.instructions@, files.primary_md is Some, files.agents_md is Some, opts.agents_md)[j],
                assistant.instructions@,
                *files,
            ) matches Some(t) && m@ == targets_spec(
                assistant.instructions@,
                files.primary_md is Some,
                files.agents_md is Some,
                opts.agents_md,
            )[j] + ": "@ + marker_error_message(t))),
        match r {
            Ok(p) => {
                &&& detected@.len() > 0
                &&& p.root@ == root@
                &&& p.languages@ == detected@.map_values(|x: (LanguageEntry, usize)| (x.0.name, x.1))
                &&& p.symbol_count == index.symbols@.len()
                &&& p.dep_count == index.deps@.len()
                &&& exists|c: BlockContext|
                    #[trigger] context_fits(
                        c,
                        detected@,
                        index.symbols@,
                        index.deps@,
                        skill_mention(*opts, *files, assistant.config_dir@),
                    ) && p.block@ == join(block_lines(c), "\n"@)
                &&& instruction_changes_fit(
                    p.instruction_files@,
                    targets_spec(assistant.instructions@, files.primary_md is Some, files.agents_md is Some, opts.agents_md),
                    assistant.instructions@,
                    *files,
                    p.block@,
                )
                &&& match p.skill {
                    Some(c) => !opts.no_skill && c.rel_path@ == skill_rel(assistant.config_dir@) && c.content@ == skill_content@
                        && c.action == action_for(opt_string(files.skill), skill_content@),
                    None => opts.no_skill,
                }
                &&& match p.gitignore {
                    Some(c) => files.git && c.rel_path@ == ".gitignore"@ && gitignore_spec(opt_string(files.gitignore))
                        == Some(c.content@) && c.action == action_for(opt_string(files.gitignore), c.content@),
                    None => !files.git || gitignore_spec(opt_string(files.gitignore)) is None,
                }
            },
            Err(_) => detected@.len() == 0 || exists|c: BlockContext|
                #[trigger] context_fits(
                    c,
                    detected@,
                    index.symbols@,
                    index.deps@,
                    skill_mention(*opts, *files, assistant.config_dir@),
                ) && !blocks_apply(
                    targets_spec(assistant.instructions@, files.primary_md is Some, files.agents_md is Some, opts.agents_md),
                    assistant.instructions@,
                    *files,
                    join(block_lines(c), "\n"@),
                ),
        },
{
    if detected.len() == 0 {
        let mut m = owned("No supported source files found under ");
        push_str(&mut m, root);
        push_str(&mut m, ".\nsmartgrep supports: ");
        let d = crate::lang::supported_extensions_display();
        push_str(&mut m, d.as_str());
        proof {
            reveal_strlit("No supported source files found under ");
            reveal_strlit(".\nsmartgrep supports: ");
        }
        assert(m@ =~= no_sources_message(root@));
        return Err(m);
    }
    let mut total: usize = 0;
    let mut i: usize = 0;
    while i < detected.len()
        invariant
            i <= detected.len(),
            total_count(detected@) <= usize::MAX,
            total as nat == total_count(detected@.take(i as int)),
        decreases detected.len() - i,
    {
        proof {
            lemma_total_count_prefix(detected@, i + 1);
            assert(detected@.take(i + 1).drop_last() =~= detected@.take(i as int));
        }
        total = total + detected[i].1;
        i += 1;
    }
    assert(detected@.take(detected.len() as int) =~= detected@);
    let skill_rel_path = crate::commands::install_skill::skill_path("", assistant.config_dir.as_str());
    assert(skill_rel_path@ == skill_rel(assistant.config_dir@)) by {
        reveal_strlit("");
    }
    let skill = if opts.no_skill {
        None
    } else {
        Some(change(skill_rel_path.clone(), opt_as_str(&files.skill), owned(skill_content)))
    };
    let skill_available = skill.is_some() || files.skill.is_some();
    let mut languages: Vec<LanguageEntry> = Vec::new();
    let mut counts: Vec<(&'static str, usize)> = Vec::new();
    let mut i: usize = 0;
    while i < detected.len()
        invariant
            i <= detected.len(),
            lang_specs(languages@) == detected@.take(i as int).map_values(|x: (LanguageEntry, usize)| x.0.spec()),
            counts@ == detected@.take(i as int).map_values(|x: (LanguageEntry, usize)| (x.0.name, x.1)),
        decreases detected.len() - i,
    {
        let l = detected[i].0.clone_language();
        counts.push((detected[i].0.name, detected[i].1));
        let ghost b = lang_specs(languages@);
        languages.push(l);
        assert(lang_specs(languages@) =~= b.push(detected@[i as int].0.spec()));
        assert(detected@.take(i + 1).map_values(|x: (LanguageEntry, usize)| x.0.spec()) =~= detected@.take(i as int).map_values(
            |x: (LanguageEntry, usize)| x.0.spec(),
        ).push(detected@[i as int].0.spec()));
        assert(counts@ =~= detected@.take(i + 1).map_values(|x: (LanguageEntry, usize)| (x.0.name, x.1)));
        i += 1;
    }
    assert(detected@.take(detected.len() as int) =~= detected@);
    let ctx = BlockContext {
        languages,
        total_files: total,
        examples: pick_examples(index),
        skill_path: if skill_available {
            Some(rel_display(skill_rel_path.as_str()))
        } else {
            None
        },
    };
    let block = render_block(&ctx);
    let ghost primary = assistant.instructions@;
    let ghost mention = skill_mention(*opts, *files, assistant.config_dir@);
    assert(context_fits(ctx, detected@, index.symbols@, index.deps@, mention));
    // Targets.
    let has_primary = files.primary_md.is_some();
    let agents = files.agents_md.is_some();
    let mut targets: Vec<&str> = Vec::new();
    if has_primary {
        targets.push(assistant.instructions.as_str());
    }
    if agents {
        targets.push("AGENTS.md");
    }
    if !has_primary && !agents {
        targets.push(assistant.instructions.as_str());
    }
    if opts.agents_md && !agents {
        targets.push("AGENTS.md");
    }
    let ghost tv = targets_spec(primary, files.primary_md is Some, files.agents_md is Some, opts.agents_md);
    proof {
        let c = primary;
        let a = "AGENTS.md"@;
        if has_primary && agents {
            assert((seq![c] + seq![a])[1] == a);
            assert((seq![c] + seq![a]).contains(a));
            assert(tv =~= seq![c, a]);
        } else if has_primary {
            assert(!seq![c].contains(a)) by {
                assert(seq![c][0] != a);
            }
            if opts.agents_md {
                assert(tv =~= seq![c, a]);
            } else {
                assert(tv =~= seq![c]);
            }
        } else if agents {
            assert(seq![a].contains(a)) by {
                assert(seq![a][0] == a);
            }
            assert(tv =~= seq![a]);
        } else {
            assert(!seq![c].contains(a)) by {
                assert(seq![c][0] != a);
            }
            if opts.agents_md {
                assert(tv =~= seq![c, a]);
            } else {
                assert(tv =~= seq![c]);
            }
        }
    }
    assert(targets@.map_values(|t: &str| t@) =~= tv);
    let mut instruction_files: Vec<FileChange> = Vec::new();
    let mut k: usize = 0;
    while k < targets.len()
        invariant
            k <= targets.len(),
            targets@.map_values(|t: &str| t@) == tv,
            primary == assistant.instructions@,
            tv == targets_spec(primary, files.primary_md is Some, files.agents_md is Some, opts.agents_md),
            mention == skill_mention(*opts, *files, assistant.config_dir@),
            context_fits(ctx, detected@, index.symbols@, index.deps@, mention),
            block@ == join(block_lines(ctx), "\n"@),
            instruction_changes_fit(instruction_files@, tv.take(k as int), primary, *files, block@),
            blocks_apply(tv.take(k as int), primary, *files, block@),
            detected@.len() > 0,
        decreases targets.len() - k,
    {
        let f = targets[k];
        assert(tv[k as int] == f@);
        let existing = if str_eq(f, assistant.instructions.as_str()) {
            opt_as_str(&files.primary_md)
        } else {
            opt_as_str(&files.agents_md)
        };
        match apply_block(existing, block.as_str()) {
            Ok(content) => {
                let c = change(owned(f), existing, content);
                instruction_files.push(c);
                assert(tv.take(k + 1) =~= tv.take(k as int).push(f@));
                assert forall|j: int| 0 <= j < tv.take(k + 1).len() implies (apply_block_spec(
                    existing_for(#[trigger] tv.take(k + 1)[j], primary, *files),
                    block@,
                ) is Some) by {
                    if j < k {
                        assert(tv.take(k + 1)[j] == tv.take(k as int)[j]);
                    }
                }
                assert forall|j: int| 0 <= j < instruction_files@.len() implies {
                    let e = existing_for(tv.take(k + 1)[j], primary, *files);
                    &&& (#[trigger] instruction_files@[j]).rel_path@ == tv.take(k + 1)[j]
                    &&& apply_block_spec(e, block@) == Some(instruction_files@[j].content@)
                    &&& instruction_files@[j].action == action_for(e, instruction_files@[j].content@)
                } by {
                    if j < k {
                        assert(tv.take(k + 1)[j] == tv.take(k as int)[j]);
                    }
                }
            },
            Err(e) => {
                assert(!blocks_apply(tv, primary, *files, block@)) by {
                    assert(apply_block_spec(existing_for(tv[k as int], primary, *files), block@) is None);
                }
                assert(context_fits(ctx, detected@, index.symbols@, index.deps@, mention) && !blocks_apply(
                    tv,
                    primary,
                    *files,
                    join(block_lines(ctx), "\n"@),
                ));
                let mut m = owned(f);
                push_str(&mut m, ": ");
                push_str(&mut m, e.as_str());
                proof {
                    let t = existing->Some_0;
                    assert(existing_for(tv[k as int], primary, *files) == Some(t@));
                    assert(m@ == tv[k as int] + ": "@ + marker_error_message(t@));
                }
                return Err(m);
            },
        }
        k += 1;
    }
    assert(tv.take(targets.len() as int) =~= tv);
    let gitignore = if files.git {
        let existing = opt_as_str(&files.gitignore);
        match gitignore_with_smartgrep(existing) {
            Some(content) => Some(change(owned(".gitignore"), existing, content)),
            None => None,
        }
    } else {
        None
    };
    Ok(
        Plan {
            root: owned(root),
            languages: counts,
            symbol_count: index.symbols.len(),
            dep_count: index.deps.len(),
            block,
            instruction_files,
            skill,
            gitignore,
        },
    )
}

proof fn lemma_total_count_prefix(v: Seq<(LanguageEntry, usize)>, n: int)
    requires
        0 <= n <= v.len(),
    ensures
        total_count(v.take(n)) <= total_count(v),
    decreases v.len(),
{
    if n < v.len() {
        lemma_total_count_prefix(v.drop_last(), n);
        assert(v.drop_last().take(n) =~= v.take(n));
    } else {
        assert(v.take(n) =~= v);
    }
}

/// Running `init` a second time changes nothing: once each target file holds
/// what the first run wrote for it, planning the same block again gives
/// that same content, marked unchanged; a `.gitignore` the first run wrote
/// needs no further line; and a skill file holding its content is unchanged.
/// (A block that holds a marker anywhere but at its ends is left out: a
/// file holding it has malformed markers.)
pub proof fn lemma_second_init_changes_nothing(
    changes: Seq<FileChange>,
    targets: Seq<Seq<char>>,
    primary: Seq<char>,
    files: ProjectFiles,
    written: ProjectFiles,
    block: Seq<char>,
    gitignore: Option<Seq<char>>,
    skill: Seq<char>,
)
    requires
        crate::commands::markers::framed_block(block),
        instruction_changes_fit(changes, targets, primary, files, block),
        forall|j: int| 0 <= j < targets.len() ==> #[trigger] existing_for(targets[j], primary, written) == Some(changes[j].content@),
    ensures
        forall|j: int|
            0 <= j < targets.len() ==> apply_block_spec(#[trigger] existing_for(targets[j], primary, written), block) == Some(
                changes[j].content@,
            ) && action_for(existing_for(targets[j], primary, written), changes[j].content@) == Action::Unchanged,
        gitignore_spec(gitignore) matches Some(y) ==> gitignore_spec(Some(y)) is None,
        action_for(Some(skill), skill) == Action::Unchanged,
{
    assert forall|j: int| 0 <= j < targets.len() implies apply_block_spec(
        #[trigger] existing_for(targets[j], primary, written),
        block,
    ) == Some(changes[j].content@) && action_for(existing_for(targets[j], primary, written), changes[j].content@)
        == Action::Unchanged by {
        let e = existing_for(targets[j], primary, files);
        assert(changes[j].rel_path@ == targets[j]);
        assert(apply_block_spec(e, block) == Some(changes[j].content@));
        crate::commands::markers::lemma_apply_block_idempotent(e, block);
    }
    lemma_gitignore_idempotent(gitignore);
}

} // verus!

verus! {

/// The block `init` writes is fixed by the project: any two contexts that
/// fit the same detected languages, symbols, dependencies and skill path
/// give the same block.
pub proof fn lemma_block_determined(
    c1: BlockContext,
    c2: BlockContext,
    detected: Seq<(LanguageEntry, usize)>,
    ss: Seq<Symbol>,
    ds: Seq<Dependency>,
    skill: Option<Seq<char>>,
)
    requires
        context_fits(c1, detected, ss, ds, skill),
        context_fits(c2, detected, ss, ds, skill),
    ensures
        block_lines(c1) == block_lines(c2),
{
}

} // verus!
