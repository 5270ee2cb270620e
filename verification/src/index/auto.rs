//! Where a project's index lives, which directories may hold a project's
//! root, the package name a `Cargo.toml` declares, and the check an index
//! read back from disk must pass.

use vstd::prelude::*;

use crate::daemon::logger::{join_path, join_path_exec};
use crate::index::types::{Index, INDEX_VERSION};
use crate::paths::{parent_dir, parent_spec, trim_end_slashes};
use crate::split::{split_all, split_on, trim_matches, trim_matches_spec};
use crate::text::{
    owned, rfind_char, starts_with, str_eq, str_starts_with, strip_prefix, strip_prefix_str, trim, trim_str,
};

verus! {

/// The index file of a project: `.smartgrep/index.json` under its root.
pub open spec fn index_path_spec(root: Seq<char>) -> Seq<char> {
    join_path(join_path(root, ".smartgrep"@), "index.json"@)
}

/// Return the path to the index file for a given project root.
pub fn index_path(root: &str) -> (r: String)
    ensures
        r@ == index_path_spec(root@),
{
    let d = join_path_exec(root, ".smartgrep");
    join_path_exec(d.as_str(), "index.json")
}

pub proof fn lemma_trim_end_slashes(s: Seq<char>)
    ensures
        trim_end_slashes(s).len() <= s.len(),
        trim_end_slashes(s) == s.take(trim_end_slashes(s).len() as int),
        trim_end_slashes(s).len() > 0 ==> trim_end_slashes(s).last() != '/',
    decreases s.len(),
{
    if s.len() > 0 && s.last() == '/' {
        lemma_trim_end_slashes(s.drop_last());
        let t = trim_end_slashes(s.drop_last());
        assert(s.drop_last().take(t.len() as int) =~= s.take(t.len() as int));
    } else {
        assert(s.take(s.len() as int) =~= s);
    }
}

pub proof fn lemma_rfind_char_in(s: Seq<char>, c: char)
    ensures
        rfind_char(s, c) matches Some(i) ==> 0 <= i < s.len() && s[i] == c,
    decreases s.len(),
{
    if s.len() > 0 && s.last() != c {
        lemma_rfind_char_in(s.drop_last(), c);
    }
}

/// A parent is shorter than its path.
pub proof fn lemma_parent_shorter(p: Seq<char>)
    ensures
        parent_spec(p) matches Some(q) ==> q.len() < p.len(),
{
    let t = trim_end_slashes(p);
    lemma_trim_end_slashes(p);
    if t.len() > 0 {
        lemma_rfind_char_in(t, '/');
        if let Some(i) = rfind_char(t, '/') {
            lemma_trim_end_slashes(t.take(i));
            assert(t[t.len() - 1] != '/');
        }
    }
}

/// The directories that may be a project's root, nearest first: the start
/// directory (the parent of a start file), then each parent in turn.
pub fn root_candidates(start: &str, start_is_file: bool) -> (r: Vec<String>)
    ensures
        r@.len() == 0 <==> (start_is_file && parent_spec(start@) is None),
        r@.len() > 0 ==> r@[0]@ == (if start_is_file { parent_spec(start@)->0 } else { start@ }),
        forall|k: int| 0 <= k < r@.len() - 1 ==> parent_spec(#[trigger] r@[k]@) == Some(r@[k + 1]@),
        r@.len() > 0 ==> parent_spec(r@.last()@) is None,
{
    let mut out: Vec<String> = Vec::new();
    let first = if start_is_file {
        match parent_dir(start) {
            Some(p) => p,
            None => {
                return out;
            },
        }
    } else {
        owned(start)
    };
    let mut cur = first;
    out.push(cur.clone());
    let mut next = parent_dir(cur.as_str());
    while next.is_some()
        invariant
            out@.len() > 0,
            out@.last()@ == cur@,
            out@[0]@ == (if start_is_file { parent_spec(start@)->0 } else { start@ }),
            forall|k: int| 0 <= k < out@.len() - 1 ==> parent_spec(#[trigger] out@[k]@) == Some(out@[k + 1]@),
            match next {
                Some(p) => parent_spec(cur@) == Some(p@),
                None => parent_spec(cur@) is None,
            },
        decreases cur@.len(),
    {
        proof {
            lemma_parent_shorter(cur@);
        }
        let p = next.unwrap();
        let ghost before = out@;
        out.push(p.clone());
        assert forall|k: int| 0 <= k < out@.len() - 1 implies parent_spec(#[trigger] out@[k]@) == Some(out@[k + 1]@) by {
            if k < before.len() - 1 {
                assert(out@[k] == before[k]);
                assert(out@[k + 1] == before[k + 1]);
            } else {
                assert(out@[k] == before.last());
            }
        }
        cur = p;
        next = parent_dir(cur.as_str());
    }
    out
}

/// The name a `name = "..."` line under `[package]` gives, scanning the
/// lines in order; `None` if no such line.
pub open spec fn package_name_in(lines: Seq<Seq<char>>, in_package: bool) -> Option<Seq<char>>
    decreases lines.len(),
{
    if lines.len() == 0 {
        None
    } else {
        let t = trim(lines[0]);
        if t.len() > 0 && t[0] == '[' {
            package_name_in(lines.drop_first(), t == "[package]"@)
        } else if in_package && starts_with(t, "name"@) && starts_with(trim(strip_prefix(t, "name"@)), "="@) {
            Some(
                trim_matches_spec(
                    trim_matches_spec(trim(strip_prefix(trim(strip_prefix(t, "name"@)), "="@)), '"'),
                    '\'',
                ),
            )
        } else {
            package_name_in(lines.drop_first(), in_package)
        }
    }
}

/// Extract the package name from the text of a `Cargo.toml`.
pub fn package_name_from(content: &str) -> (r: Option<String>)
    ensures
        match r {
            Some(n) => package_name_in(split_on(content@, '\n'), false) == Some(n@),
            None => package_name_in(split_on(content@, '\n'), false) is None,
        },
{
    let lines = split_all(content, '\n');
    let ghost ls = crate::text::views(lines@);
    let mut in_package = false;
    let mut i: usize = 0;
    assert(ls.skip(0) =~= ls);
    while i < lines.len()
        invariant
            i <= lines.len(),
            ls == crate::text::views(lines@),
            ls == split_on(content@, '\n'),
            package_name_in(ls, false) == package_name_in(ls.skip(i as int), in_package),
        decreases lines.len() - i,
    {
        assert(ls.skip(i as int)[0] == lines@[i as int]@);
        assert(ls.skip(i as int).drop_first() =~= ls.skip(i + 1));
        let t = trim_str(lines[i].as_str());
        let tv = crate::text::chars_of(t.as_str());
        if tv.len() > 0 && tv[0] == '[' {
            in_package = str_eq(t.as_str(), "[package]");
        } else if in_package && str_starts_with(t.as_str(), "name") {
            let rest = strip_prefix_str(t.as_str(), "name");
            let rest = trim_str(rest.as_str());
            if str_starts_with(rest.as_str(), "=") {
                let v = strip_prefix_str(rest.as_str(), "=");
                let v = trim_str(v.as_str());
                let v = trim_matches(v.as_str(), '"');
                let v = trim_matches(v.as_str(), '\'');
                return Some(v);
            }
        }
        i += 1;
    }
    assert(ls.skip(i as int) =~= Seq::<Seq<char>>::empty());
    None
}

/// An index read back from disk is usable only when it was written by this
/// version of the index format.
pub fn check_loaded(index: Index) -> (r: Result<Index, String>)
    ensures
        index.version == INDEX_VERSION ==> (r matches Ok(i) && i == index),
        index.version != INDEX_VERSION ==> (r matches Err(e) && e@ == "index version mismatch — re-indexing"@),
{
    if index.version != INDEX_VERSION {
        return Err(owned("index version mismatch — re-indexing"));
    }
    Ok(index)
}

/// Is the stored index older than some source file? `index_mtime` is the
/// index file's modification time (`None` when it is missing or unreadable);
/// `source_mtimes` those of the project's source files (`None` where one
/// could not be read, which then counts for nothing).
pub fn index_is_stale(index_mtime: Option<u128>, source_mtimes: &Vec<Option<u128>>) -> (r: bool)
    ensures
        r == (index_mtime is None || exists|i: int|
            0 <= i < source_mtimes@.len() && (#[trigger] source_mtimes@[i] matches Some(t) && t > index_mtime->Some_0)),
{
    let idx = match index_mtime {
        Some(t) => t,
        None => {
            return true;
        },
    };
    let mut i: usize = 0;
    while i < source_mtimes.len()
        invariant
            i <= source_mtimes.len(),
            index_mtime == Some(idx),
            forall|j: int| 0 <= j < i ==> !(#[trigger] source_mtimes@[j] matches Some(t) && t > idx),
        decreases source_mtimes.len() - i,
    {
        match source_mtimes[i] {
            Some(t) => {
                if t > idx {
                    return true;
                }
            },
            None => {},
        }
        i += 1;
    }
    false
}

/// Where the index a command works on comes from.
#[derive(Clone, Copy, Debug, PartialEq, Eq, Structural)]
pub enum IndexSource {
    /// The stored index, read back from disk.
    Stored,
    /// A fresh index built from the sources (and saved).
    Rebuild,
}

/// The stored index is used when it exists, is not stale and loads;
/// otherwise the index is rebuilt.
pub fn index_source(index_exists: bool, stale: bool, loaded: bool) -> (r: IndexSource)
    ensures
        r == (if index_exists && !stale && loaded {
            IndexSource::Stored
        } else {
            IndexSource::Rebuild
        }),
{
    if index_exists && !stale && loaded {
        IndexSource::Stored
    } else {
        IndexSource::Rebuild
    }
}

} // verus!
