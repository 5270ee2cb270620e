//! Path display optimization for text output.
//!
//! Two modes:
//! - **SingleFile**: all symbols come from the same file. Emit the path once as
//!   a header and drop it from every row.
//! - **Alias**: multiple files share a long common directory prefix. Emit a
//!   `[P] = prefix` header and replace the prefix with `[P]` in every row.

use vstd::prelude::*;

use crate::text::{
    byte_len, byte_len_exec, chars_of, decimal, push_str, rfind_char, starts_with,
    str_starts_with, string_of, sub_vec, usize_to_string, owned,
};
use crate::paths::rfind_char_exec;

verus! {

/// Paths whose shared directory prefix is at most this many bytes long are
/// shown in full.
pub const MIN_PREFIX_LEN: usize = 20;

/// The marker that stands for the shared prefix.
pub open spec fn alias_marker() -> Seq<char> {
    seq!['[', 'P', ']']
}

/// How to display paths in text output.
#[derive(Debug, Clone)]
pub enum PathDisplay {
    /// All symbols are from one file: show the path once as a header.
    SingleFile { path: String },
    /// Multiple files share a common prefix: use alias substitution.
    Alias(PathAlias),
}

/// The result of path alias computation (multi-file case).
#[derive(Debug, Clone)]
pub struct PathAlias {
    /// The common prefix that was factored out (always ends with `/`).
    pub prefix: String,
    /// The alias marker, e.g. `[P]`.
    pub marker: String,
}

/// What a [`PathDisplay`] holds.
pub enum PathDisplayV {
    SingleFile(Seq<char>),
    Alias { prefix: Seq<char>, marker: Seq<char> },
}

impl PathDisplay {
    pub open spec fn view(&self) -> PathDisplayV {
        match self {
            PathDisplay::SingleFile { path } => PathDisplayV::SingleFile(path@),
            PathDisplay::Alias(a) => PathDisplayV::Alias { prefix: a.prefix@, marker: a.marker@ },
        }
    }
}

pub open spec fn display_view(d: Option<PathDisplay>) -> Option<PathDisplayV> {
    match d {
        Some(x) => Some(x.view()),
        None => None,
    }
}

/// How a row shows a location: with no display optimization `file:line`;
/// `:line` for a single file; the alias-shortened path and `:line` otherwise.
pub open spec fn loc_spec(d: Option<PathDisplayV>, file: Seq<char>, line: usize) -> Seq<char> {
    match d {
        None => file + ":"@ + decimal(line as nat),
        Some(PathDisplayV::SingleFile(_)) => ":"@ + decimal(line as nat),
        Some(PathDisplayV::Alias { prefix, marker }) => shorten_spec(prefix, marker, file) + ":"@ + decimal(
            line as nat,
        ),
    }
}

/// The header line of a display.
pub open spec fn header_spec(d: PathDisplayV) -> Seq<char> {
    match d {
        PathDisplayV::SingleFile(path) => "# "@ + path,
        PathDisplayV::Alias { prefix, marker } => marker + " = "@ + prefix,
    }
}

/// `path` with `prefix` replaced by `marker` when it starts with `prefix`.
pub open spec fn shorten_spec(prefix: Seq<char>, marker: Seq<char>, path: Seq<char>) -> Seq<char> {
    if starts_with(path, prefix) {
        marker + path.subrange(prefix.len() as int, path.len() as int)
    } else {
        path
    }
}

pub open spec fn alias_header_spec(a: PathAlias) -> Seq<char> {
    a.marker@ + " = "@ + a.prefix@
}

pub open spec fn display_header_spec(d: PathDisplay) -> Seq<char> {
    match d {
        PathDisplay::SingleFile { path } => "# "@ + path@,
        PathDisplay::Alias(a) => alias_header_spec(a),
    }
}

fn marker_string() -> (r: String)
    ensures
        r@ == alias_marker(),
{
    let mut r = String::new();
    crate::text::push_char(&mut r, '[');
    crate::text::push_char(&mut r, 'P');
    crate::text::push_char(&mut r, ']');
    assert(r@ =~= alias_marker());
    r
}

impl PathDisplay {
    /// Format the header line for text output.
    pub fn header(&self) -> (r: String)
        ensures
            r@ == display_header_spec(*self),
    {
        match self {
            PathDisplay::SingleFile { path } => {
                let mut r = owned("# ");
                push_str(&mut r, path.as_str());
                r
            },
            PathDisplay::Alias(alias) => alias.header(),
        }
    }

    /// Shorten a file path for display in a row: empty for a single file (the
    /// path is in the header), the alias substitution otherwise.
    pub fn shorten_file(&self, path: &str) -> (r: String)
        ensures
            r@ == match *self {
                PathDisplay::SingleFile { .. } => Seq::<char>::empty(),
                PathDisplay::Alias(a) => shorten_spec(a.prefix@, a.marker@, path@),
            },
    {
        match self {
            PathDisplay::SingleFile { .. } => {
                let r = String::new();
                assert(r@ =~= Seq::<char>::empty());
                r
            },
            PathDisplay::Alias(alias) => alias.shorten(path),
        }
    }

    /// Format a location (file and line) for a row: `:line` for a single
    /// file, `[P]rest/file.rs:line` with an alias.
    pub fn format_loc(&self, path: &str, line: usize) -> (r: String)
        ensures
            r@ == match *self {
                PathDisplay::SingleFile { .. } => ":"@ + decimal(line as nat),
                PathDisplay::Alias(a) => shorten_spec(a.prefix@, a.marker@, path@) + ":"@ + decimal(
                    line as nat,
                ),
            },
    {
        match self {
            PathDisplay::SingleFile { .. } => {
                let mut r = owned(":");
                let n = usize_to_string(line);
                push_str(&mut r, n.as_str());
                r
            },
            PathDisplay::Alias(alias) => {
                let mut r = alias.shorten(path);
                push_str(&mut r, ":");
                let n = usize_to_string(line);
                push_str(&mut r, n.as_str());
                r
            },
        }
    }
}

impl PathAlias {
    /// Format the alias header line: `[P] = prefix`.
    pub fn header(&self) -> (r: String)
        ensures
            r@ == alias_header_spec(*self),
    {
        let mut r = owned(self.marker.as_str());
        push_str(&mut r, " = ");
        push_str(&mut r, self.prefix.as_str());
        r
    }

    /// Shorten a path by replacing the prefix with the alias marker.
    pub fn shorten(&self, path: &str) -> (r: String)
        ensures
            r@ == shorten_spec(self.prefix@, self.marker@, path@),
    {
        if str_starts_with(path, self.prefix.as_str()) {
            let v = chars_of(path);
            let n = chars_of(self.prefix.as_str()).len();
            let rest = string_of(&v, n, v.len());
            let mut r = owned(self.marker.as_str());
            push_str(&mut r, rest.as_str());
            r
        } else {
            owned(path)
        }
    }
}

/// Expanding the marker of a shortened path gives the path back.
pub proof fn lemma_shorten_expands(a: PathAlias, path: Seq<char>)
    requires
        starts_with(path, a.prefix@),
    ensures
        starts_with(shorten_spec(a.prefix@, a.marker@, path), a.marker@),
        a.prefix@ + shorten_spec(a.prefix@, a.marker@, path).subrange(
            a.marker@.len() as int,
            shorten_spec(a.prefix@, a.marker@, path).len() as int,
        ) == path,
{
    let s = shorten_spec(a.prefix@, a.marker@, path);
    assert(s.subrange(0, a.marker@.len() as int) =~= a.marker@);
    assert(s.subrange(a.marker@.len() as int, s.len() as int) =~= path.subrange(
        a.prefix@.len() as int,
        path.len() as int,
    ));
    assert(a.prefix@ + path.subrange(a.prefix@.len() as int, path.len() as int) =~= path);
}

// ---------------------------------------------------------------------------
// Choosing the display
// ---------------------------------------------------------------------------

/// The longest common prefix of two strings.
pub open spec fn common_prefix(a: Seq<char>, b: Seq<char>) -> Seq<char>
    decreases a.len(),
{
    if a.len() == 0 || b.len() == 0 || a[0] != b[0] {
        seq![]
    } else {
        seq![a[0]] + common_prefix(a.drop_first(), b.drop_first())
    }
}

/// The longest common prefix of a list of strings.
pub open spec fn lcp(ps: Seq<Seq<char>>) -> Seq<char>
    decreases ps.len(),
{
    if ps.len() == 0 {
        seq![]
    } else if ps.len() == 1 {
        ps[0]
    } else {
        common_prefix(lcp(ps.drop_last()), ps.last())
    }
}

/// The display chosen for a list of paths: one file, an alias for a long
/// shared directory prefix, or none.
pub open spec fn display_spec(ps: Seq<Seq<char>>) -> Option<PathDisplayV> {
    if ps.len() == 0 {
        None
    } else if all_same(ps) {
        Some(PathDisplayV::SingleFile(ps[0]))
    } else {
        match alias_prefix(ps) {
            Some(p) => Some(PathDisplayV::Alias { prefix: p, marker: alias_marker() }),
            None => None,
        }
    }
}

/// All entries are the same string.
pub open spec fn all_same(ps: Seq<Seq<char>>) -> bool {
    forall|i: int| 0 <= i < ps.len() ==> #[trigger] ps[i] == ps[0]
}

/// The shared prefix to alias: the longest common prefix cut after its last
/// `/`, when that is longer than [`MIN_PREFIX_LEN`] bytes.
pub open spec fn alias_prefix(ps: Seq<Seq<char>>) -> Option<Seq<char>> {
    let l = lcp(ps);
    match rfind_char(l, '/') {
        Some(pos) => {
            let p = l.take(pos + 1);
            if byte_len(p) > MIN_PREFIX_LEN {
                Some(p)
            } else {
                None
            }
        },
        None => None,
    }
}

pub open spec fn strs(paths: Seq<&str>) -> Seq<Seq<char>> {
    paths.map_values(|s: &str| s@)
}

proof fn lemma_common_prefix(a: Seq<char>, b: Seq<char>)
    ensures
        starts_with(a, common_prefix(a, b)),
        starts_with(b, common_prefix(a, b)),
    decreases a.len(),
{
    if !(a.len() == 0 || b.len() == 0 || a[0] != b[0]) {
        lemma_common_prefix(a.drop_first(), b.drop_first());
        let c = common_prefix(a.drop_first(), b.drop_first());
        assert(a.subrange(0, c.len() as int + 1) =~= seq![a[0]] + a.drop_first().subrange(0, c.len() as int));
        assert(b.subrange(0, c.len() as int + 1) =~= seq![b[0]] + b.drop_first().subrange(0, c.len() as int));
    } else {
        assert(a.subrange(0, 0) =~= Seq::<char>::empty());
        assert(b.subrange(0, 0) =~= Seq::<char>::empty());
    }
}

proof fn lemma_starts_with_trans(s: Seq<char>, p: Seq<char>, q: Seq<char>)
    requires
        starts_with(s, p),
        starts_with(p, q),
    ensures
        starts_with(s, q),
{
    assert(s.subrange(0, q.len() as int) =~= p.subrange(0, q.len() as int));
}

/// The longest common prefix is a prefix of every entry.
pub proof fn lemma_lcp_prefix_of_all(ps: Seq<Seq<char>>)
    ensures
        forall|i: int| 0 <= i < ps.len() ==> starts_with(#[trigger] ps[i], lcp(ps)),
    decreases ps.len(),
{
    if ps.len() == 1 {
        assert(ps[0].subrange(0, ps[0].len() as int) =~= ps[0]);
    } else if ps.len() > 1 {
        lemma_lcp_prefix_of_all(ps.drop_last());
        lemma_common_prefix(lcp(ps.drop_last()), ps.last());
        assert forall|i: int| 0 <= i < ps.len() implies starts_with(#[trigger] ps[i], lcp(ps)) by {
            if i < ps.len() - 1 {
                assert(ps.drop_last()[i] == ps[i]);
                lemma_starts_with_trans(ps[i], lcp(ps.drop_last()), lcp(ps));
            }
        }
    }
}

fn common_prefix_len(a: &Vec<char>, b: &Vec<char>) -> (r: usize)
    ensures
        r <= a.len(),
        a@.take(r as int) == common_prefix(a@, b@),
{
    let mut i: usize = 0;
    assert(a@.skip(0) =~= a@);
    assert(b@.skip(0) =~= b@);
    assert(a@.take(0) + common_prefix(a@, b@) =~= common_prefix(a@, b@));
    while i < a.len() && i < b.len() && a[i] == b[i]
        invariant
            i <= a.len(),
            i <= b.len(),
            common_prefix(a@, b@) == a@.take(i as int) + common_prefix(a@.skip(i as int), b@.skip(i as int)),
        decreases a.len() - i,
    {
        assert(a@.skip(i as int).drop_first() =~= a@.skip(i + 1));
        assert(b@.skip(i as int).drop_first() =~= b@.skip(i + 1));
        assert(a@.take(i + 1) =~= a@.take(i as int) + seq![a@[i as int]]);
        assert(a@.skip(i as int)[0] == a@[i as int]);
        assert(b@.skip(i as int)[0] == b@[i as int]);
        i += 1;
    }
    if i < a.len() && i < b.len() {
        assert(a@.skip(i as int)[0] == a@[i as int]);
        assert(b@.skip(i as int)[0] == b@[i as int]);
    }
    assert(common_prefix(a@.skip(i as int), b@.skip(i as int)) =~= Seq::<char>::empty());
    assert(a@.take(i as int) + Seq::<char>::empty() =~= a@.take(i as int));
    i
}

/// Compute the best path display for a set of file paths: `SingleFile` if
/// all paths are the same, `Alias` if they share a directory prefix longer
/// than [`MIN_PREFIX_LEN`] bytes, `None` if no optimization helps.
pub fn compute_path_display(paths: &[&str]) -> (r: Option<PathDisplay>)
    ensures
        display_view(r) == display_spec(strs(paths@)),
{
    let ghost ps = strs(paths@);
    let n = paths.len();
    if n == 0 {
        return None;
    }
    // One file?
    let mut same = true;
    let mut i: usize = 1;
    while i < n
        invariant
            1 <= i <= n,
            n == paths@.len(),
            ps == strs(paths@),
            same == forall|j: int| 0 <= j < i ==> #[trigger] ps[j] == ps[0],
        decreases n - i,
    {
        assert(ps[i as int] == paths@[i as int]@);
        assert(ps[0] == paths@[0]@);
        if !crate::text::str_eq(paths[i], paths[0]) {
            same = false;
        }
        i += 1;
    }
    if same {
        return Some(PathDisplay::SingleFile { path: owned(paths[0]) });
    }
    // Longest common prefix of all paths.
    let mut cur = chars_of(paths[0]);
    let mut k: usize = 1;
    assert(ps.take(1).len() == 1);
    while k < n
        invariant
            1 <= k <= n,
            n == paths@.len(),
            ps == strs(paths@),
            cur@ == lcp(ps.take(k as int)),
        decreases n - k,
    {
        let other = chars_of(paths[k]);
        let m = common_prefix_len(&cur, &other);
        assert(ps.take(k + 1).drop_last() =~= ps.take(k as int));
        assert(ps.take(k + 1).last() == ps[k as int]);
        cur = sub_vec(&cur, 0, m);
        assert(cur@ =~= lcp(ps.take(k + 1)));
        k += 1;
    }
    assert(ps.take(n as int) =~= ps);
    match rfind_char_exec(&cur, '/') {
        Some(pos) => {
            let prefix = string_of(&cur, 0, pos + 1);
            assert(prefix@ =~= cur@.take(pos + 1));
            if byte_len_exec(prefix.as_str()) > MIN_PREFIX_LEN {
                Some(PathDisplay::Alias(PathAlias { prefix, marker: marker_string() }))
            } else {
                None
            }
        },
        None => None,
    }
}

/// The alias [`compute_path_alias`] chooses for the paths: prefix and marker.
pub open spec fn alias_spec(ps: Seq<Seq<char>>) -> Option<(Seq<char>, Seq<char>)> {
    if ps.len() > 0 && !all_same(ps) && alias_prefix(ps) is Some {
        Some((alias_prefix(ps)->0, alias_marker()))
    } else {
        None
    }
}

/// The prefix and marker of an alias, if any.
pub open spec fn alias_pair(a: Option<PathAlias>) -> Option<(Seq<char>, Seq<char>)> {
    match a {
        Some(x) => Some((x.prefix@, x.marker@)),
        None => None,
    }
}

/// The alias header lines: `[P] = prefix` and a blank line.
pub open spec fn alias_header(a: Option<(Seq<char>, Seq<char>)>) -> Seq<Seq<char>> {
    match a {
        Some((p, m)) => seq![m + " = "@ + p, seq![]],
        None => seq![],
    }
}

/// The alias, when [`compute_path_display`] chooses one.
pub fn compute_path_alias(paths: &[&str]) -> (r: Option<PathAlias>)
    ensures
        match r {
            Some(a) => alias_spec(strs(paths@)) == Some((a.prefix@, a.marker@)),
            None => alias_spec(strs(paths@)) is None,
        },
{
    match compute_path_display(paths) {
        Some(PathDisplay::Alias(alias)) => Some(alias),
        _ => None,
    }
}

/// The aliased prefix is shared by every path, ends with `/`, and is longer
/// than [`MIN_PREFIX_LEN`] bytes.
pub proof fn lemma_alias_prefix_shared(ps: Seq<Seq<char>>)
    requires
        alias_prefix(ps) is Some,
    ensures
        forall|i: int| 0 <= i < ps.len() ==> starts_with(#[trigger] ps[i], alias_prefix(ps)->0),
        alias_prefix(ps)->0.len() > 0,
        alias_prefix(ps)->0.last() == '/',
        byte_len(alias_prefix(ps)->0) > MIN_PREFIX_LEN,
{
    let l = lcp(ps);
    lemma_lcp_prefix_of_all(ps);
    lemma_rfind_char(l, '/');
    let pos = rfind_char(l, '/')->0;
    let p = l.take(pos + 1);
    assert(starts_with(l, p)) by {
        assert(l.subrange(0, p.len() as int) =~= p);
    }
    assert forall|i: int| 0 <= i < ps.len() implies starts_with(#[trigger] ps[i], p) by {
        lemma_starts_with_trans(ps[i], l, p);
    }
}

proof fn lemma_rfind_char(s: Seq<char>, c: char)
    ensures
        rfind_char(s, c) matches Some(i) ==> 0 <= i < s.len() && s[i] == c,
    decreases s.len(),
{
    if s.len() > 0 && s.last() != c {
        lemma_rfind_char(s.drop_last(), c);
    }
}

} // verus!
