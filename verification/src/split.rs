//! Splitting and character filtering: the pieces of a string between
//! separators (`str::split`, with or without the empty pieces), its
//! whitespace-separated words (`str::split_whitespace`), whitespace removal,
//! and replacing one character by a string.

use vstd::prelude::*;

use crate::text::{chars_of, is_ws, lemma_take_push, push_char, push_str, string_of, trim_end_char, views};

verus! {

/// Close a piece, dropping it when it is empty.
pub open spec fn flush_nonempty(parts: Seq<Seq<char>>, cur: Seq<char>) -> Seq<Seq<char>> {
    if cur.len() == 0 {
        parts
    } else {
        parts.push(cur)
    }
}

/// Left-to-right scan for [`split_on`]: the closed pieces and the open one.
pub open spec fn split_scan(s: Seq<char>, sep: char) -> (Seq<Seq<char>>, Seq<char>)
    decreases s.len(),
{
    if s.len() == 0 {
        (seq![], seq![])
    } else {
        let (parts, cur) = split_scan(s.drop_last(), sep);
        if s.last() == sep {
            (parts.push(cur), seq![])
        } else {
            (parts, cur.push(s.last()))
        }
    }
}

/// Every piece of `s` between occurrences of `sep`, empty ones included
/// (`str::split` with a character).
pub open spec fn split_on(s: Seq<char>, sep: char) -> Seq<Seq<char>> {
    let (parts, cur) = split_scan(s, sep);
    parts.push(cur)
}

/// Left-to-right scan for [`pieces`].
pub open spec fn pieces_scan(s: Seq<char>, sep: char) -> (Seq<Seq<char>>, Seq<char>)
    decreases s.len(),
{
    if s.len() == 0 {
        (seq![], seq![])
    } else {
        let (parts, cur) = pieces_scan(s.drop_last(), sep);
        if s.last() == sep {
            (flush_nonempty(parts, cur), seq![])
        } else {
            (parts, cur.push(s.last()))
        }
    }
}

/// The non-empty pieces of `s` between occurrences of `sep`.
pub open spec fn pieces(s: Seq<char>, sep: char) -> Seq<Seq<char>> {
    let (parts, cur) = pieces_scan(s, sep);
    flush_nonempty(parts, cur)
}

/// Left-to-right scan for [`words`].
pub open spec fn words_scan(s: Seq<char>) -> (Seq<Seq<char>>, Seq<char>)
    decreases s.len(),
{
    if s.len() == 0 {
        (seq![], seq![])
    } else {
        let (parts, cur) = words_scan(s.drop_last());
        if is_ws(s.last()) {
            (flush_nonempty(parts, cur), seq![])
        } else {
            (parts, cur.push(s.last()))
        }
    }
}

/// The whitespace-separated words of `s` (`str::split_whitespace`).
pub open spec fn words(s: Seq<char>) -> Seq<Seq<char>> {
    let (parts, cur) = words_scan(s);
    flush_nonempty(parts, cur)
}

/// `s` with every whitespace character removed.
pub open spec fn remove_ws(s: Seq<char>) -> Seq<char>
    decreases s.len(),
{
    if s.len() == 0 {
        seq![]
    } else if is_ws(s.last()) {
        remove_ws(s.drop_last())
    } else {
        remove_ws(s.drop_last()).push(s.last())
    }
}

/// `s` with every `c` replaced by the string `r` (`str::replace`).
pub open spec fn replace_char_str(s: Seq<char>, c: char, r: Seq<char>) -> Seq<char>
    decreases s.len(),
{
    if s.len() == 0 {
        seq![]
    } else if s.last() == c {
        replace_char_str(s.drop_last(), c, r) + r
    } else {
        replace_char_str(s.drop_last(), c, r).push(s.last())
    }
}

/// The pieces of `s` between occurrences of `sep`, empty ones included.
pub fn split_all(s: &str, sep: char) -> (r: Vec<String>)
    ensures
        views(r@) == split_on(s@, sep),
{
    let v = chars_of(s);
    let mut parts: Vec<String> = Vec::new();
    let mut start: usize = 0;
    let mut i: usize = 0;
    assert(views(parts@) =~= Seq::<Seq<char>>::empty());
    while i < v.len()
        invariant
            start <= i <= v.len(),
            v@ == s@,
            (views(parts@), v@.subrange(start as int, i as int)) == split_scan(s@.take(i as int), sep),
        decreases v.len() - i,
    {
        proof {
            lemma_take_push(s@, i as int);
        }
        if v[i] == sep {
            let ghost before = views(parts@);
            let cur = string_of(&v, start, i);
            parts.push(cur);
            assert(views(parts@) =~= before.push(cur@));
            start = i + 1;
            assert(v@.subrange(start as int, start as int) =~= Seq::<char>::empty());
        } else {
            assert(v@.subrange(start as int, i + 1) =~= v@.subrange(start as int, i as int).push(v@[i as int]));
        }
        i += 1;
    }
    assert(s@.take(v.len() as int) =~= s@);
    let ghost before = views(parts@);
    let cur = string_of(&v, start, v.len());
    parts.push(cur);
    assert(views(parts@) =~= before.push(cur@));
    parts
}

/// The non-empty pieces of `s` between occurrences of `sep`.
pub fn split_nonempty(s: &str, sep: char) -> (r: Vec<String>)
    ensures
        views(r@) == pieces(s@, sep),
{
    let v = chars_of(s);
    let mut parts: Vec<String> = Vec::new();
    let mut start: usize = 0;
    let mut i: usize = 0;
    assert(views(parts@) =~= Seq::<Seq<char>>::empty());
    while i < v.len()
        invariant
            start <= i <= v.len(),
            v@ == s@,
            (views(parts@), v@.subrange(start as int, i as int)) == pieces_scan(s@.take(i as int), sep),
        decreases v.len() - i,
    {
        proof {
            lemma_take_push(s@, i as int);
        }
        if v[i] == sep {
            let ghost before = views(parts@);
            if i > start {
                let cur = string_of(&v, start, i);
                parts.push(cur);
                assert(views(parts@) =~= before.push(cur@));
            }
            start = i + 1;
            assert(v@.subrange(start as int, start as int) =~= Seq::<char>::empty());
        } else {
            assert(v@.subrange(start as int, i + 1) =~= v@.subrange(start as int, i as int).push(v@[i as int]));
        }
        i += 1;
    }
    assert(s@.take(v.len() as int) =~= s@);
    let ghost before = views(parts@);
    if v.len() > start {
        let cur = string_of(&v, start, v.len());
        parts.push(cur);
        assert(views(parts@) =~= before.push(cur@));
    }
    parts
}

/// The whitespace-separated words of `s`.
pub fn split_words(s: &str) -> (r: Vec<String>)
    ensures
        views(r@) == words(s@),
{
    let v = chars_of(s);
    let mut parts: Vec<String> = Vec::new();
    let mut start: usize = 0;
    let mut i: usize = 0;
    assert(views(parts@) =~= Seq::<Seq<char>>::empty());
    while i < v.len()
        invariant
            start <= i <= v.len(),
            v@ == s@,
            (views(parts@), v@.subrange(start as int, i as int)) == words_scan(s@.take(i as int)),
        decreases v.len() - i,
    {
        proof {
            lemma_take_push(s@, i as int);
        }
        if crate::text::char_is_ws(v[i]) {
            let ghost before = views(parts@);
            if i > start {
                let cur = string_of(&v, start, i);
                parts.push(cur);
                assert(views(parts@) =~= before.push(cur@));
            }
            start = i + 1;
            assert(v@.subrange(start as int, start as int) =~= Seq::<char>::empty());
        } else {
            assert(v@.subrange(start as int, i + 1) =~= v@.subrange(start as int, i as int).push(v@[i as int]));
        }
        i += 1;
    }
    assert(s@.take(v.len() as int) =~= s@);
    let ghost before = views(parts@);
    if v.len() > start {
        let cur = string_of(&v, start, v.len());
        parts.push(cur);
        assert(views(parts@) =~= before.push(cur@));
    }
    parts
}

/// `s` with every whitespace character removed.
pub fn without_ws(s: &str) -> (r: String)
    ensures
        r@ == remove_ws(s@),
{
    let v = chars_of(s);
    let mut r = String::new();
    let mut i: usize = 0;
    while i < v.len()
        invariant
            i <= v.len(),
            v@ == s@,
            r@ == remove_ws(s@.take(i as int)),
        decreases v.len() - i,
    {
        proof {
            lemma_take_push(s@, i as int);
        }
        if !crate::text::char_is_ws(v[i]) {
            push_char(&mut r, v[i]);
        }
        i += 1;
    }
    assert(s@.take(v.len() as int) =~= s@);
    r
}

/// `s` with every `c` replaced by `with`.
pub fn replace_with(s: &str, c: char, with: &str) -> (r: String)
    ensures
        r@ == replace_char_str(s@, c, with@),
{
    let v = chars_of(s);
    let mut r = String::new();
    let mut i: usize = 0;
    while i < v.len()
        invariant
            i <= v.len(),
            v@ == s@,
            r@ == replace_char_str(s@.take(i as int), c, with@),
        decreases v.len() - i,
    {
        proof {
            lemma_take_push(s@, i as int);
        }
        if v[i] == c {
            push_str(&mut r, with);
        } else {
            push_char(&mut r, v[i]);
        }
        i += 1;
    }
    assert(s@.take(v.len() as int) =~= s@);
    r
}

/// `s` without its leading `c` characters.
pub open spec fn trim_start_char(s: Seq<char>, c: char) -> Seq<char>
    decreases s.len(),
{
    if s.len() > 0 && s[0] == c {
        trim_start_char(s.drop_first(), c)
    } else {
        s
    }
}

/// `s` without the `c` characters at either end (`str::trim_matches`).
pub open spec fn trim_matches_spec(s: Seq<char>, c: char) -> Seq<char> {
    trim_end_char(trim_start_char(s, c), c)
}

/// Position of the first `c` in `s`.
pub open spec fn first_index(s: Seq<char>, c: char) -> Option<int>
    decreases s.len(),
{
    if s.len() == 0 {
        None
    } else if s[0] == c {
        Some(0)
    } else {
        match first_index(s.drop_first(), c) {
            Some(i) => Some(i + 1),
            None => None,
        }
    }
}

/// Number of leading `c` characters of `v`.
pub fn leading_count(v: &Vec<char>, c: char) -> (k: usize)
    ensures
        k <= v.len(),
        trim_start_char(v@, c) == v@.skip(k as int),
{
    let mut k: usize = 0;
    assert(v@.skip(0) =~= v@);
    while k < v.len() && v[k] == c
        invariant
            k <= v.len(),
            trim_start_char(v@, c) == trim_start_char(v@.skip(k as int), c),
        decreases v.len() - k,
    {
        assert(v@.skip(k as int).drop_first() =~= v@.skip(k + 1));
        k += 1;
    }
    k
}

/// `s` without its leading `c` characters.
pub fn trim_start_matches(s: &str, c: char) -> (r: String)
    ensures
        r@ == trim_start_char(s@, c),
{
    let v = chars_of(s);
    let k = leading_count(&v, c);
    let r = string_of(&v, k, v.len());
    assert(r@ =~= v@.skip(k as int));
    r
}

/// `s` without the `c` characters at either end.
pub fn trim_matches(s: &str, c: char) -> (r: String)
    ensures
        r@ == trim_matches_spec(s@, c),
{
    let a = trim_start_matches(s, c);
    let v = chars_of(a.as_str());
    let mut b = v.len();
    assert(v@.take(b as int) =~= v@);
    while b > 0 && v[b - 1] == c
        invariant
            b <= v.len(),
            trim_end_char(v@, c) == trim_end_char(v@.take(b as int), c),
        decreases b,
    {
        assert(v@.take(b as int).drop_last() =~= v@.take(b - 1));
        b -= 1;
    }
    let r = string_of(&v, 0, b);
    assert(r@ =~= v@.take(b as int));
    r
}

/// `s` without its trailing `c` characters.
pub fn trim_end_matches(s: &str, c: char) -> (r: String)
    ensures
        r@ == trim_end_char(s@, c),
{
    let v = chars_of(s);
    let mut b = v.len();
    assert(v@.take(b as int) =~= v@);
    while b > 0 && v[b - 1] == c
        invariant
            b <= v.len(),
            v@ == s@,
            trim_end_char(s@, c) == trim_end_char(v@.take(b as int), c),
        decreases b,
    {
        assert(v@.take(b as int).drop_last() =~= v@.take(b - 1));
        b -= 1;
    }
    let r = string_of(&v, 0, b);
    assert(r@ =~= v@.take(b as int));
    r
}

/// Position of the first `c` in `v`.
pub fn first_index_exec(v: &Vec<char>, c: char) -> (r: Option<usize>)
    ensures
        match r {
            Some(i) => first_index(v@, c) == Some(i as int) && i < v.len(),
            None => first_index(v@, c) is None,
        },
{
    let mut i: usize = 0;
    assert(v@.skip(0) =~= v@);
    while i < v.len()
        invariant
            i <= v.len(),
            forall|j: int| 0 <= j < i ==> v@[j] != c,
            first_index(v@, c) == match first_index(v@.skip(i as int), c) {
                Some(k) => Some(k + i),
                None => None,
            },
        decreases v.len() - i,
    {
        assert(v@.skip(i as int)[0] == v@[i as int]);
        if v[i] == c {
            return Some(i);
        }
        assert(v@.skip(i as int).drop_first() =~= v@.skip(i + 1));
        i += 1;
    }
    assert(v@.skip(i as int) =~= Seq::<char>::empty());
    None
}

} // verus!
