//! Path normalization: every path that enters the IR (and so the index and all
//! output) uses `/` as its separator, whatever the host OS. Windows hands us
//! `src\ir\types.rs`; we store and print `src/ir/types.rs`, so qualified names,
//! `loc.file`, and command output are identical across platforms.

use vstd::prelude::*;

use crate::text::{chars_of, lemma_take_push, push_char, replace_char, rfind_char, string_of, views};

verus! {

/// `std::path::MAIN_SEPARATOR`: `/` on Unix, `\` on Windows.
#[verifier::external_body]
fn main_separator() -> (c: char)
    ensures
        c == '/' || c == '\\',
{
    std::path::MAIN_SEPARATOR
}

/// Replace `sep` with `/`. The OS-independent core of [`to_slash`], exposed so
/// tests can simulate Windows separators on any host.
pub fn to_slash_with(s: &str, sep: char) -> (r: String)
    ensures
        r@ == replace_char(s@, sep, '/'),
{
    let v = chars_of(s);
    let mut out = String::new();
    let mut i: usize = 0;
    while i < v.len()
        invariant
            i <= v.len(),
            v@ == s@,
            out@ == replace_char(s@.take(i as int), sep, '/'),
        decreases v.len() - i,
    {
        proof {
            lemma_take_push(s@, i as int);
            assert(replace_char(s@.take(i + 1), sep, '/') =~= replace_char(s@.take(i as int), sep, '/').push(
                if s@[i as int] == sep { '/' } else { s@[i as int] },
            ));
        }
        if v[i] == sep {
            push_char(&mut out, '/');
        } else {
            push_char(&mut out, v[i]);
        }
        i += 1;
    }
    assert(s@.take(v.len() as int) =~= s@);
    out
}

/// Convert a path string using the host's native separator to `/` form.
/// A no-op on Unix, where `\` is a legal file-name character.
pub fn to_slash(s: &str) -> (r: String)
    ensures
        r@ == s@ || r@ == replace_char(s@, '\\', '/'),
{
    let sep = main_separator();
    let r = to_slash_with(s, sep);
    if sep == '/' {
        assert(replace_char(s@, '/', '/') =~= s@);
    }
    r
}

/// Render a path with `/` separators.
pub fn path_to_slash(p: &str) -> (r: String)
    ensures
        r@ == p@ || r@ == replace_char(p@, '\\', '/'),
{
    to_slash(p)
}

/// The `/`-separated form of `p`, for storage in the IR.
pub fn normalize(p: &str) -> (r: String)
    ensures
        r@ == p@ || r@ == replace_char(p@, '\\', '/'),
{
    path_to_slash(p)
}

// ---------------------------------------------------------------------------
// Components of a `/`-separated path
// ---------------------------------------------------------------------------

/// Close a piece while splitting on `/`: empty and `.` pieces are dropped, as
/// `Path::components` drops repeated separators and `.` components.
pub open spec fn comp_flush(comps: Seq<Seq<char>>, cur: Seq<char>) -> Seq<Seq<char>> {
    if cur.len() == 0 || cur == seq!['.'] {
        comps
    } else {
        comps.push(cur)
    }
}

pub open spec fn comp_scan(s: Seq<char>) -> (Seq<Seq<char>>, Seq<char>)
    decreases s.len(),
{
    if s.len() == 0 {
        (seq![], seq![])
    } else {
        let (comps, cur) = comp_scan(s.drop_last());
        if s.last() == '/' {
            (comp_flush(comps, cur), seq![])
        } else {
            (comps, cur.push(s.last()))
        }
    }
}

/// The named components of a `/`-separated path.
pub open spec fn components(s: Seq<char>) -> Seq<Seq<char>> {
    let (comps, cur) = comp_scan(s);
    comp_flush(comps, cur)
}

/// The final component, unless the path has none or ends in `..`.
pub open spec fn file_name(s: Seq<char>) -> Option<Seq<char>> {
    let c = components(s);
    if c.len() == 0 || c.last() == seq!['.', '.'] {
        None
    } else {
        Some(c.last())
    }
}

/// What follows the final `.` of a file name, unless that `.` is the
/// name's first character or there is none (`Path::extension`).
pub open spec fn extension_of_name(n: Seq<char>) -> Option<Seq<char>> {
    match rfind_char(n, '.') {
        Some(i) => if i > 0 { Some(n.skip(i + 1)) } else { None },
        None => None,
    }
}

pub open spec fn extension(s: Seq<char>) -> Option<Seq<char>> {
    match file_name(s) {
        Some(n) => extension_of_name(n),
        None => None,
    }
}

/// The named components of a `/`-separated path.
pub fn path_components(s: &str) -> (r: Vec<String>)
    ensures
        views(r@) == components(s@),
{
    let v = chars_of(s);
    let mut comps: Vec<String> = Vec::new();
    let mut start: usize = 0;
    let mut i: usize = 0;
    assert(views(comps@) =~= Seq::<Seq<char>>::empty());
    while i < v.len()
        invariant
            start <= i <= v.len(),
            v@ == s@,
            (views(comps@), v@.subrange(start as int, i as int)) == comp_scan(s@.take(i as int)),
        decreases v.len() - i,
    {
        proof {
            lemma_take_push(s@, i as int);
        }
        if v[i] == '/' {
            let ghost before = views(comps@);
            let cur = string_of(&v, start, i);
            let cur_len = i - start;
            if cur_len > 0 && !(cur_len == 1 && v[start] == '.') {
                comps.push(cur);
                assert(views(comps@) =~= before.push(cur@));
            }
            proof {
                let c = v@.subrange(start as int, i as int);
                if c.len() == 1 && c[0] == '.' {
                    assert(c =~= seq!['.']);
                }
                if c == seq!['.'] {
                    assert(c[0] == '.');
                }
            }
            start = i + 1;
            assert(v@.subrange(start as int, start as int) =~= Seq::<char>::empty());
        } else {
            assert(v@.subrange(start as int, i + 1) =~= v@.subrange(start as int, i as int).push(v@[i as int]));
        }
        i += 1;
    }
    assert(s@.take(v.len() as int) =~= s@);
    let ghost before = views(comps@);
    let cur = string_of(&v, start, v.len());
    let cur_len = v.len() - start;
    if cur_len > 0 && !(cur_len == 1 && v[start] == '.') {
        comps.push(cur);
        assert(views(comps@) =~= before.push(cur@));
    }
    proof {
        let c = v@.subrange(start as int, v.len() as int);
        if c.len() == 1 && c[0] == '.' {
            assert(c =~= seq!['.']);
        }
        if c == seq!['.'] {
            assert(c[0] == '.');
        }
    }
    comps
}

/// The final component of a path (`Path::file_name`).
pub fn file_name_of(s: &str) -> (r: Option<String>)
    ensures
        match r {
            Some(n) => file_name(s@) == Some(n@),
            None => file_name(s@) is None,
        },
{
    let comps = path_components(s);
    if comps.len() == 0 {
        return None;
    }
    let last = comps[comps.len() - 1].clone();
    assert(views(comps@).last() == last@);
    let lv = chars_of(last.as_str());
    if lv.len() == 2 && lv[0] == '.' && lv[1] == '.' {
        assert(lv@ =~= seq!['.', '.']);
        return None;
    }
    proof {
        if last@ == seq!['.', '.'] {
            assert(lv@[0] == '.' && lv@[1] == '.');
        }
    }
    Some(last)
}

/// Position of the last `c` in `v`.
pub fn rfind_char_exec(v: &Vec<char>, c: char) -> (r: Option<usize>)
    ensures
        match r {
            Some(i) => rfind_char(v@, c) == Some(i as int) && i < v.len(),
            None => rfind_char(v@, c) is None,
        },
{
    let mut k = v.len();
    assert(v@.take(k as int) =~= v@);
    while k > 0
        invariant
            k <= v.len(),
            rfind_char(v@, c) == rfind_char(v@.take(k as int), c),
        decreases k,
    {
        assert(v@.take(k as int).last() == v@[k - 1]);
        if v[k - 1] == c {
            return Some(k - 1);
        }
        assert(v@.take(k as int).drop_last() =~= v@.take(k - 1));
        k -= 1;
    }
    None
}

/// The extension of a path (`Path::extension`).
pub fn extension_of(s: &str) -> (r: Option<String>)
    ensures
        match r {
            Some(e) => extension(s@) == Some(e@),
            None => extension(s@) is None,
        },
{
    match file_name_of(s) {
        None => None,
        Some(n) => {
            let v = chars_of(n.as_str());
            match rfind_char_exec(&v, '.') {
                Some(i) => {
                    if i > 0 {
                        let e = string_of(&v, i + 1, v.len());
                        assert(v@.subrange(i + 1, v.len() as int) =~= v@.skip(i + 1));
                        Some(e)
                    } else {
                        None
                    }
                },
                None => None,
            }
        },
    }
}

// ---------------------------------------------------------------------------
// Parent directory
// ---------------------------------------------------------------------------

/// `s` without trailing `/` characters.
pub open spec fn trim_end_slashes(s: Seq<char>) -> Seq<char>
    decreases s.len(),
{
    if s.len() > 0 && s.last() == '/' {
        trim_end_slashes(s.drop_last())
    } else {
        s
    }
}

/// The parent of a `/`-separated path (`Path::parent`, for paths without
/// `.` components): `None` for an empty path or the root, the empty path for
/// a single relative component, `/` for a single absolute one.
pub open spec fn parent_spec(p: Seq<char>) -> Option<Seq<char>> {
    let t = trim_end_slashes(p);
    if t.len() == 0 {
        None
    } else {
        match rfind_char(t, '/') {
            None => Some(seq![]),
            Some(i) => {
                let q = trim_end_slashes(t.take(i));
                if q.len() == 0 {
                    Some(seq!['/'])
                } else {
                    Some(q)
                }
            },
        }
    }
}

fn trim_end_slashes_len(v: &Vec<char>, n: usize) -> (r: usize)
    requires
        n <= v.len(),
    ensures
        r <= n,
        v@.take(r as int) == trim_end_slashes(v@.take(n as int)),
{
    let mut b = n;
    while b > 0 && v[b - 1] == '/'
        invariant
            b <= n <= v.len(),
            trim_end_slashes(v@.take(n as int)) == trim_end_slashes(v@.take(b as int)),
        decreases b,
    {
        assert(v@.take(b as int).drop_last() =~= v@.take(b - 1));
        b -= 1;
    }
    b
}

/// The parent directory of a path (see [`parent_spec`]).
pub fn parent_dir(p: &str) -> (r: Option<String>)
    ensures
        match r {
            Some(x) => parent_spec(p@) == Some(x@),
            None => parent_spec(p@) is None,
        },
{
    let v = chars_of(p);
    assert(v@.take(v.len() as int) =~= v@);
    let t = trim_end_slashes_len(&v, v.len());
    if t == 0 {
        return None;
    }
    let tv = crate::text::sub_vec(&v, 0, t);
    assert(tv@ =~= v@.take(t as int));
    match rfind_char_exec(&tv, '/') {
        None => Some(String::new()),
        Some(i) => {
            let q = trim_end_slashes_len(&tv, i);
            if q == 0 {
                let mut r = String::new();
                push_char(&mut r, '/');
                assert(r@ =~= seq!['/']);
                Some(r)
            } else {
                let r = string_of(&tv, 0, q);
                assert(r@ =~= tv@.take(q as int));
                Some(r)
            }
        },
    }
}

} // verus!
