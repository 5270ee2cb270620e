//! The `log` command: the recent entries of the query log as a table, and
//! statistics over the whole log.

use vstd::prelude::*;

use crate::daemon::logger::LogEntry;
use crate::text::{
    byte_len, byte_len_exec, chars_of, decimal, owned, pad, pad_right, push_str, spaces, str_eq,
    string_of, u64_to_string, usize_to_string,
};

verus! {

/// Right-aligned in a field of `width` characters (`format!("{:>width$}")`).
pub open spec fn pad_left(s: Seq<char>, width: nat) -> Seq<char> {
    if s.len() < width {
        spaces((width - s.len()) as nat) + s
    } else {
        s
    }
}

/// `s` right-aligned in a field of `width` characters.
pub fn pad_start(s: &str, width: usize) -> (r: String)
    ensures
        r@ == pad_left(s@, width as nat),
{
    let n = chars_of(s).len();
    let mut r = String::new();
    let mut k = n;
    assert(r@ =~= spaces(0));
    while k < width
        invariant
            n == s@.len(),
            k >= n,
            n < width ==> k <= width,
            n >= width ==> k == n,
            r@ == spaces((k - n) as nat),
        decreases width - k,
    {
        crate::text::push_char(&mut r, ' ');
        assert(r@ =~= spaces((k + 1 - n) as nat));
        k += 1;
    }
    push_str(&mut r, s);
    proof {
        if n >= width {
            assert(k == n);
            assert(r@ =~= s@);
        }
    }
    r
}

/// The longest start of `s` whose UTF-8 encoding takes at most `budget`
/// bytes (`&s[..budget]` where `budget` falls between characters).
pub open spec fn byte_prefix(s: Seq<char>, budget: nat) -> Seq<char>
    decreases s.len(),
{
    if s.len() == 0 {
        s
    } else {
        let w = vstd::utf8::encode_scalar(s[0] as u32).len();
        if w <= budget {
            seq![s[0]] + byte_prefix(s.drop_first(), (budget - w) as nat)
        } else {
            seq![]
        }
    }
}

/// `s` cut to its first `keep` bytes followed by `...` when it is longer
/// than `limit` bytes (the cut falls before a character that would cross
/// `keep`).
pub open spec fn elide(s: Seq<char>, limit: nat, keep: nat) -> Seq<char> {
    if byte_len(s) > limit {
        byte_prefix(s, keep) + "..."@
    } else {
        s
    }
}

/// Bytes of a character's UTF-8 encoding.
fn char_width(c: char) -> (r: usize)
    ensures
        r == vstd::utf8::encode_scalar(c as u32).len(),
{
    proof {
        vstd::utf8::char_is_scalar(c);
    }
    let v = c as u32;
    if v <= 0x7F {
        1
    } else if v <= 0x7FF {
        2
    } else if v <= 0xFFFF {
        3
    } else {
        4
    }
}

fn elide_exec(s: &str, limit: usize, keep: usize) -> (r: String)
    ensures
        r@ == elide(s@, limit as nat, keep as nat),
{
    if byte_len_exec(s) > limit {
        let v = chars_of(s);
        let mut budget = keep;
        let mut i: usize = 0;
        assert(v@.skip(0) =~= v@);
        assert(v@.take(0) + byte_prefix(v@.skip(0), keep as nat) =~= byte_prefix(v@, keep as nat));
        while i < v.len()
            invariant
                i <= v.len(),
                v@ == s@,
                byte_prefix(s@, keep as nat) == v@.take(i as int) + byte_prefix(v@.skip(i as int), budget as nat),
            ensures
                i <= v.len(),
                byte_prefix(s@, keep as nat) == v@.take(i as int),
            decreases v.len() - i,
        {
            assert(v@.skip(i as int)[0] == v@[i as int]);
            let w = char_width(v[i]);
            if w > budget {
                assert(byte_prefix(v@.skip(i as int), budget as nat) =~= Seq::<char>::empty());
                assert(v@.take(i as int) + Seq::<char>::empty() =~= v@.take(i as int));
                break;
            }
            assert(v@.skip(i as int).drop_first() =~= v@.skip(i + 1));
            assert(v@.take(i + 1) + byte_prefix(v@.skip(i + 1), (budget - w) as nat) =~= v@.take(i as int) + (seq![
                v@[i as int],
            ] + byte_prefix(v@.skip(i + 1), (budget - w) as nat)));
            budget = budget - w;
            i += 1;
        }
        proof {
            if i == v.len() {
                assert(v@.skip(i as int) =~= Seq::<char>::empty());
            }
        }
        let mut r = string_of(&v, 0, i);
        assert(r@ =~= v@.take(i as int));
        push_str(&mut r, "...");
        r
    } else {
        owned(s)
    }
}

// ---------------------------------------------------------------------------
// Recent entries
// ---------------------------------------------------------------------------

/// The widest command, at least 7.
pub open spec fn command_width(es: Seq<LogEntry>) -> nat
    decreases es.len(),
{
    if es.len() == 0 {
        7
    } else {
        let w = command_width(es.drop_last());
        let b = byte_len(es.last().command@) as nat;
        if b > w {
            b
        } else {
            w
        }
    }
}

/// The widest argument text (counting at most 60), at least 4.
pub open spec fn args_width(es: Seq<LogEntry>) -> nat
    decreases es.len(),
{
    if es.len() == 0 {
        4
    } else {
        let w = args_width(es.drop_last());
        let b0 = byte_len(es.last().args@) as nat;
        let b = if b0 < 60 {
            b0
        } else {
            60
        };
        if b > w {
            b
        } else {
            w
        }
    }
}

/// One row of the table.
pub open spec fn recent_row(e: LogEntry, cw: nat, aw: nat) -> Seq<char> {
    pad_right(e.ts@.take(if e.ts@.len() < 20 { e.ts@.len() as int } else { 20 }), 20) + "  "@ + pad_right(
        e.command@,
        cw,
    ) + "  "@ + pad_right(elide(e.args@, 60, 57), aw) + "  "@ + pad_left(decimal(e.results as nat), 7) + "  "@
        + pad_left(decimal(e.duration_ms as nat), 6)
}

/// The table of the given entries: a header, a rule, one row per entry.
pub open spec fn recent_lines(es: Seq<LogEntry>) -> Seq<Seq<char>> {
    if es.len() == 0 {
        seq!["No queries logged yet."@]
    } else {
        let cw = command_width(es);
        let aw = args_width(es);
        seq![
            pad_right("TIMESTAMP"@, 20) + "  "@ + pad_right("COMMAND"@, cw) + "  "@ + pad_right("ARGS"@, aw) + "  "@
                + pad_left("RESULTS"@, 7) + "  "@ + pad_left("MS"@, 6),
            Seq::new((20 + 2 + cw + 2 + aw + 2 + 7 + 2 + 6) as nat, |i: int| '-'),
        ] + es.map_values(|e: LogEntry| recent_row(e, cw, aw))
    }
}

fn widths(entries: &Vec<LogEntry>) -> (r: (usize, usize))
    ensures
        r.0 == command_width(entries@),
        r.1 == args_width(entries@),
{
    let mut cw: usize = 7;
    let mut aw: usize = 4;
    let mut i: usize = 0;
    assert(entries@.take(0) =~= Seq::<LogEntry>::empty());
    while i < entries.len()
        invariant
            i <= entries.len(),
            cw == command_width(entries@.take(i as int)),
            aw == args_width(entries@.take(i as int)),
        decreases entries.len() - i,
    {
        proof {
            crate::text::lemma_take_push(entries@, i as int);
        }
        let b = byte_len_exec(entries[i].command.as_str());
        if b > cw {
            cw = b;
        }
        let b0 = byte_len_exec(entries[i].args.as_str());
        let ab = if b0 < 60 {
            b0
        } else {
            60
        };
        if ab > aw {
            aw = ab;
        }
        i += 1;
    }
    assert(entries@.take(entries.len() as int) =~= entries@);
    (cw, aw)
}

fn row_text(e: &LogEntry, cw: usize, aw: usize) -> (r: String)
    ensures
        r@ == recent_row(*e, cw as nat, aw as nat),
{
    let tv = chars_of(e.ts.as_str());
    let tn = if tv.len() < 20 {
        tv.len()
    } else {
        20
    };
    let ts = string_of(&tv, 0, tn);
    let mut r = pad(ts.as_str(), 20);
    push_str(&mut r, "  ");
    let c = pad(e.command.as_str(), cw);
    push_str(&mut r, c.as_str());
    push_str(&mut r, "  ");
    let a = elide_exec(e.args.as_str(), 60, 57);
    let a = pad(a.as_str(), aw);
    push_str(&mut r, a.as_str());
    push_str(&mut r, "  ");
    let n = usize_to_string(e.results);
    let n = pad_start(n.as_str(), 7);
    push_str(&mut r, n.as_str());
    push_str(&mut r, "  ");
    let d = u64_to_string(e.duration_ms);
    let d = pad_start(d.as_str(), 6);
    push_str(&mut r, d.as_str());
    assert(ts@ =~= e.ts@.take(if e.ts@.len() < 20 { e.ts@.len() as int } else { 20 }));
    r
}

/// The lines `log` prints for the most recent entries.
pub fn format_recent(entries: &Vec<LogEntry>) -> (r: Vec<String>)
    ensures
        crate::text::views(r@) == recent_lines(entries@),
{
    let mut out: Vec<String> = Vec::new();
    if entries.len() == 0 {
        out.push(owned("No queries logged yet."));
        assert(crate::text::views(out@) =~= recent_lines(entries@));
        return out;
    }
    let (cw, aw) = widths(entries);
    let mut header = pad("TIMESTAMP", 20);
    push_str(&mut header, "  ");
    let c = pad("COMMAND", cw);
    push_str(&mut header, c.as_str());
    push_str(&mut header, "  ");
    let a = pad("ARGS", aw);
    push_str(&mut header, a.as_str());
    push_str(&mut header, "  ");
    let n = pad_start("RESULTS", 7);
    push_str(&mut header, n.as_str());
    push_str(&mut header, "  ");
    let m = pad_start("MS", 6);
    push_str(&mut header, m.as_str());
    out.push(header);
    let total: u128 = 20 + 2 + cw as u128 + 2 + aw as u128 + 2 + 7 + 2 + 6;
    let mut rule = String::new();
    let mut k: u128 = 0;
    while k < total
        invariant
            k <= total,
            rule@ == Seq::new(k as nat, |i: int| '-'),
        decreases total - k,
    {
        crate::text::push_char(&mut rule, '-');
        assert(rule@ =~= Seq::new((k + 1) as nat, |i: int| '-'));
        k += 1;
    }
    out.push(rule);
    let ghost head = crate::text::views(out@);
    let mut i: usize = 0;
    while i < entries.len()
        invariant
            i <= entries.len(),
            cw == command_width(entries@),
            aw == args_width(entries@),
            crate::text::views(out@) == head + entries@.take(i as int).map_values(
                |e: LogEntry| recent_row(e, cw as nat, aw as nat),
            ),
        decreases entries.len() - i,
    {
        let ghost before = crate::text::views(out@);
        out.push(row_text(&entries[i], cw, aw));
        assert(entries@.take(i + 1).map_values(|e: LogEntry| recent_row(e, cw as nat, aw as nat)) =~= entries@.take(
            i as int,
        ).map_values(|e: LogEntry| recent_row(e, cw as nat, aw as nat)).push(recent_row(entries@[i as int], cw as nat, aw as nat)));
        assert(crate::text::views(out@) =~= before.push(recent_row(entries@[i as int], cw as nat, aw as nat)));
        i += 1;
    }
    assert(entries@.take(entries.len() as int) =~= entries@);
    assert(crate::text::views(out@) =~= recent_lines(entries@));
    out
}

// ---------------------------------------------------------------------------
// Statistics
// ---------------------------------------------------------------------------

/// The position of the first entry of `t` whose key is `k`.
pub open spec fn key_index<K, V>(t: Seq<(K, V)>, k: K) -> Option<int>
    decreases t.len(),
{
    if t.len() == 0 {
        None
    } else {
        match key_index(t.drop_last(), k) {
            Some(i) => Some(i),
            None => if t.last().0 == k {
                Some(t.len() - 1)
            } else {
                None
            },
        }
    }
}

/// Count the keys in order of first occurrence, adding up a value per key:
/// (key, (count, total)).
pub open spec fn tally<K>(s: Seq<(K, nat)>) -> Seq<(K, (nat, nat))>
    decreases s.len(),
{
    if s.len() == 0 {
        seq![]
    } else {
        let t = tally(s.drop_last());
        let (k, v) = s.last();
        match key_index(t, k) {
            Some(i) => t.update(i, (k, (t[i].1.0 + 1, t[i].1.1 + v))),
            None => t.push((k, (1, v))),
        }
    }
}

/// `x` inserted after every entry counted at least as often.
pub open spec fn insert_by_count<K>(s: Seq<(K, (nat, nat))>, x: (K, (nat, nat))) -> Seq<(K, (nat, nat))>
    decreases s.len(),
{
    if s.len() == 0 {
        seq![x]
    } else if s.last().1.0 < x.1.0 {
        insert_by_count(s.drop_last(), x).push(s.last())
    } else {
        s.push(x)
    }
}

/// The entries stably sorted by count, most frequent first.
pub open spec fn by_count_desc<K>(s: Seq<(K, (nat, nat))>) -> Seq<(K, (nat, nat))>
    decreases s.len(),
{
    if s.len() == 0 {
        seq![]
    } else {
        insert_by_count(by_count_desc(s.drop_last()), s.last())
    }
}

/// Every entry keyed by its command, valued by its duration.
pub open spec fn command_keys(es: Seq<LogEntry>) -> Seq<(Seq<char>, nat)> {
    es.map_values(|e: LogEntry| (e.command@, e.duration_ms as nat))
}

/// The entries with arguments, keyed by them.
pub open spec fn args_keys(es: Seq<LogEntry>) -> Seq<(Seq<char>, nat)>
    decreases es.len(),
{
    if es.len() == 0 {
        seq![]
    } else if es.last().args@.len() > 0 {
        args_keys(es.drop_last()).push((es.last().args@, 0))
    } else {
        args_keys(es.drop_last())
    }
}

/// The entries without results, keyed by command and arguments.
pub open spec fn zero_keys(es: Seq<LogEntry>) -> Seq<((Seq<char>, Seq<char>), nat)>
    decreases es.len(),
{
    if es.len() == 0 {
        seq![]
    } else if es.last().results == 0 {
        zero_keys(es.drop_last()).push(((es.last().command@, es.last().args@), 0))
    } else {
        zero_keys(es.drop_last())
    }
}

pub open spec fn command_line(g: (Seq<char>, (nat, nat))) -> Seq<char> {
    "  "@ + pad_right(g.0, 10) + "  "@ + pad_left(decimal(g.1.0), 5) + " queries  avg "@ + pad_left(
        decimal(g.1.1 / g.1.0),
        4,
    ) + "ms"@
}

pub open spec fn args_line(g: (Seq<char>, (nat, nat))) -> Seq<char> {
    "  "@ + pad_left(decimal(g.1.0), 4) + "x  "@ + elide(g.0, 50, 47)
}

pub open spec fn zero_line(g: ((Seq<char>, Seq<char>), (nat, nat))) -> Seq<char> {
    "  "@ + pad_left(decimal(g.1.0), 4) + "x  "@ + g.0.0 + " "@ + elide(g.0.1, 40, 37)
}

pub open spec fn command_lines(gs: Seq<(Seq<char>, (nat, nat))>) -> Seq<Seq<char>> {
    gs.map_values(|g: (Seq<char>, (nat, nat))| command_line(g))
}

pub open spec fn args_lines(gs: Seq<(Seq<char>, (nat, nat))>) -> Seq<Seq<char>> {
    gs.map_values(|g: (Seq<char>, (nat, nat))| args_line(g))
}

pub open spec fn zero_lines(gs: Seq<((Seq<char>, Seq<char>), (nat, nat))>) -> Seq<Seq<char>> {
    gs.map_values(|g: ((Seq<char>, Seq<char>), (nat, nat))| zero_line(g))
}

/// The first ten of a list (all of it when shorter).
pub open spec fn top10<T>(s: Seq<T>) -> Seq<T> {
    if s.len() <= 10 {
        s
    } else {
        s.take(10)
    }
}

/// The number of entries without results.
pub open spec fn zero_count(es: Seq<LogEntry>) -> nat {
    zero_keys(es).len()
}

/// The lines `log --stats` prints: totals, queries per command with their
/// average duration, the ten most frequent arguments, and the ten most
/// frequent queries that found nothing. Keys that occur equally often keep
/// the order in which they first occur.
pub open spec fn stats_lines(es: Seq<LogEntry>) -> Seq<Seq<char>> {
    if es.len() == 0 {
        seq!["No queries logged yet."@]
    } else {
        let head = seq![
            "=== Query Log Statistics ==="@,
            seq![],
            "Total queries: "@ + decimal(es.len()),
            seq![],
            "Queries by command type:"@,
        ];
        let cmds = command_lines(by_count_desc(tally(command_keys(es))));
        let args = args_lines(top10(by_count_desc(tally(args_keys(es)))));
        let base = head + cmds + seq![seq![], "Most queried arguments:"@] + args;
        if zero_count(es) == 0 {
            base
        } else {
            base + seq![seq![], "Queries with 0 results ("@ + decimal(zero_count(es)) + " total):"@] + zero_lines(
                top10(by_count_desc(tally(zero_keys(es)))),
            )
        }
    }
}


/// A tally as (key, (count, total)).
pub open spec fn tally_view(v: Seq<(String, usize, u128)>) -> Seq<(Seq<char>, (nat, nat))> {
    v.map_values(|x: (String, usize, u128)| (x.0@, (x.1 as nat, x.2 as nat)))
}

/// A tally keyed by a pair of texts.
pub open spec fn pair_tally_view(v: Seq<(String, String, usize)>) -> Seq<((Seq<char>, Seq<char>), (nat, nat))> {
    v.map_values(|x: (String, String, usize)| ((x.0@, x.1@), (x.2 as nat, 0nat)))
}

pub proof fn lemma_tally_bounds<K>(s: Seq<(K, nat)>, bound: nat)
    requires
        forall|i: int| 0 <= i < s.len() ==> (#[trigger] s[i]).1 <= bound,
    ensures
        forall|j: int| 0 <= j < tally(s).len() ==> 1 <= (#[trigger] tally(s)[j]).1.0 <= s.len() && tally(s)[j].1.1
            <= bound * tally(s)[j].1.0,
    decreases s.len(),
{
    if s.len() > 0 {
        lemma_tally_bounds(s.drop_last(), bound);
        let t = tally(s.drop_last());
        let (k, v) = s.last();
        assert(s[s.len() - 1].1 <= bound);
        match key_index(t, k) {
            Some(i) => {
                lemma_key_index_in(t, k);
                assert forall|j: int| 0 <= j < tally(s).len() implies 1 <= (#[trigger] tally(s)[j]).1.0 <= s.len()
                    && tally(s)[j].1.1 <= bound * tally(s)[j].1.0 by {
                    if j == i {
                        assert(t[i].1.1 <= bound * t[i].1.0);
                        assert(bound * (t[i].1.0 + 1) == bound * t[i].1.0 + bound) by (nonlinear_arith);
                    }
                }
            },
            None => {
                assert forall|j: int| 0 <= j < tally(s).len() implies 1 <= (#[trigger] tally(s)[j]).1.0 <= s.len()
                    && tally(s)[j].1.1 <= bound * tally(s)[j].1.0 by {
                    if j == t.len() {
                        assert(bound * 1 == bound);
                    }
                }
            },
        }
    }
}

pub proof fn lemma_key_index_in<K, V>(t: Seq<(K, V)>, k: K)
    ensures
        key_index(t, k) matches Some(i) ==> 0 <= i < t.len() && t[i].0 == k,
        key_index(t, k) is None ==> forall|j: int| 0 <= j < t.len() ==> (#[trigger] t[j]).0 != k,
    decreases t.len(),
{
    if t.len() > 0 {
        lemma_key_index_in(t.drop_last(), k);
        assert forall|j: int| 0 <= j < t.len() - 1 implies #[trigger] t[j] == t.drop_last()[j] by {}
    }
}

pub proof fn lemma_key_index_at<K, V>(t: Seq<(K, V)>, k: K, idx: int)
    requires
        0 <= idx < t.len(),
        t[idx].0 == k,
        forall|q: int| 0 <= q < idx ==> (#[trigger] t[q]).0 != k,
    ensures
        key_index(t, k) == Some(idx),
    decreases t.len(),
{
    if idx < t.len() - 1 {
        assert forall|q: int| 0 <= q < idx implies (#[trigger] t.drop_last()[q]).0 != k by {
            assert(t.drop_last()[q] == t[q]);
        }
        assert(t.drop_last()[idx] == t[idx]);
        lemma_key_index_at(t.drop_last(), k, idx);
    } else {
        lemma_key_index_in(t.drop_last(), k);
        if let Some(i2) = key_index(t.drop_last(), k) {
            assert(t.drop_last()[i2] == t[i2]);
        }
    }
}

pub proof fn lemma_key_index_absent<K, V>(t: Seq<(K, V)>, k: K)
    requires
        forall|q: int| 0 <= q < t.len() ==> (#[trigger] t[q]).0 != k,
    ensures
        key_index(t, k) is None,
    decreases t.len(),
{
    if t.len() > 0 {
        assert forall|q: int| 0 <= q < t.drop_last().len() implies (#[trigger] t.drop_last()[q]).0 != k by {
            assert(t.drop_last()[q] == t[q]);
        }
        lemma_key_index_absent(t.drop_last(), k);
        assert(t[t.len() - 1].0 != k);
    }
}

/// The first entry keyed by `key`.
fn find_text(out: &Vec<(String, usize, u128)>, key: &str) -> (r: Option<usize>)
    ensures
        match r {
            Some(j) => key_index(tally_view(out@), key@) == Some(j as int),
            None => key_index(tally_view(out@), key@) is None,
        },
{
    let ghost t = tally_view(out@);
    let mut j: usize = 0;
    while j < out.len()
        invariant
            j <= out.len(),
            t == tally_view(out@),
            forall|q: int| 0 <= q < j ==> (#[trigger] t[q]).0 != key@,
        decreases out.len() - j,
    {
        assert(t[j as int].0 == out@[j as int].0@);
        if str_eq(out[j].0.as_str(), key) {
            proof {
                lemma_key_index_at(t, key@, j as int);
            }
            return Some(j);
        }
        j += 1;
    }
    proof {
        lemma_key_index_absent(t, key@);
    }
    None
}

/// Tally texts in order of first occurrence, adding up their values.
fn tally_texts(keys: &Vec<(String, u64)>) -> (r: Vec<(String, usize, u128)>)
    ensures
        tally_view(r@) == tally(keys@.map_values(|x: (String, u64)| (x.0@, x.1 as nat))),
{
    let ghost ks = keys@.map_values(|x: (String, u64)| (x.0@, x.1 as nat));
    let mut out: Vec<(String, usize, u128)> = Vec::new();
    let mut i: usize = 0;
    assert(ks.take(0) =~= Seq::<(Seq<char>, nat)>::empty());
    assert(tally_view(out@) =~= tally(ks.take(0)));
    while i < keys.len()
        invariant
            i <= keys.len(),
            ks == keys@.map_values(|x: (String, u64)| (x.0@, x.1 as nat)),
            tally_view(out@) == tally(ks.take(i as int)),
        decreases keys.len() - i,
    {
        proof {
            crate::text::lemma_take_push(ks, i as int);
            assert forall|q: int| 0 <= q < ks.take(i as int).len() implies (#[trigger] ks.take(i as int)[q]).1
                <= u64::MAX by {
                assert(ks.take(i as int)[q] == ks[q]);
            }
            lemma_tally_bounds(ks.take(i as int), u64::MAX as nat);
        }
        let ghost t = tally_view(out@);
        let key = keys[i].0.as_str();
        let v = keys[i].1;
        assert(ks[i as int] == (key@, v as nat));
        match find_text(&out, key) {
            Some(idx) => {
                proof {
                    lemma_key_index_in(t, key@);
                }
                let c = out[idx].1;
                let sum = out[idx].2;
                assert(t[idx as int].1.0 <= i);
                assert(t[idx as int].1.1 <= u64::MAX * t[idx as int].1.0);
                assert(u64::MAX * t[idx as int].1.0 + u64::MAX < u128::MAX) by (nonlinear_arith)
                    requires
                        t[idx as int].1.0 <= usize::MAX,
                ;
                let name = out[idx].0.clone();
                out.set(idx, (name, c + 1, sum + v as u128));
                assert(tally_view(out@) =~= t.update(
                    idx as int,
                    (key@, (t[idx as int].1.0 + 1, t[idx as int].1.1 + v as nat)),
                ));
            },
            None => {
                out.push((keys[i].0.clone(), 1, v as u128));
                assert(tally_view(out@) =~= t.push((key@, (1nat, v as nat))));
            },
        }
        i += 1;
    }
    assert(ks.take(keys.len() as int) =~= ks);
    out
}


/// The first entry keyed by the pair `(a, b)`.
fn find_pair(out: &Vec<(String, String, usize)>, a: &str, b: &str) -> (r: Option<usize>)
    ensures
        match r {
            Some(j) => key_index(pair_tally_view(out@), (a@, b@)) == Some(j as int),
            None => key_index(pair_tally_view(out@), (a@, b@)) is None,
        },
{
    let ghost t = pair_tally_view(out@);
    let mut j: usize = 0;
    while j < out.len()
        invariant
            j <= out.len(),
            t == pair_tally_view(out@),
            forall|q: int| 0 <= q < j ==> (#[trigger] t[q]).0 != (a@, b@),
        decreases out.len() - j,
    {
        assert(t[j as int].0 == (out@[j as int].0@, out@[j as int].1@));
        if str_eq(out[j].0.as_str(), a) && str_eq(out[j].1.as_str(), b) {
            proof {
                lemma_key_index_at(t, (a@, b@), j as int);
            }
            return Some(j);
        }
        j += 1;
    }
    proof {
        lemma_key_index_absent(t, (a@, b@));
    }
    None
}

/// Tally pairs of texts in order of first occurrence.
fn tally_pairs(keys: &Vec<(String, String)>) -> (r: Vec<(String, String, usize)>)
    ensures
        pair_tally_view(r@) == tally(keys@.map_values(|x: (String, String)| ((x.0@, x.1@), 0nat))),
{
    let ghost ks = keys@.map_values(|x: (String, String)| ((x.0@, x.1@), 0nat));
    let mut out: Vec<(String, String, usize)> = Vec::new();
    let mut i: usize = 0;
    assert(ks.take(0) =~= Seq::<((Seq<char>, Seq<char>), nat)>::empty());
    assert(pair_tally_view(out@) =~= tally(ks.take(0)));
    while i < keys.len()
        invariant
            i <= keys.len(),
            ks == keys@.map_values(|x: (String, String)| ((x.0@, x.1@), 0nat)),
            pair_tally_view(out@) == tally(ks.take(i as int)),
        decreases keys.len() - i,
    {
        proof {
            crate::text::lemma_take_push(ks, i as int);
            assert forall|q: int| 0 <= q < ks.take(i as int).len() implies (#[trigger] ks.take(i as int)[q]).1 <= 0 by {
                assert(ks.take(i as int)[q] == ks[q]);
            }
            lemma_tally_bounds(ks.take(i as int), 0);
        }
        let ghost t = pair_tally_view(out@);
        let a = keys[i].0.as_str();
        let b = keys[i].1.as_str();
        assert(ks[i as int] == ((a@, b@), 0nat));
        match find_pair(&out, a, b) {
            Some(idx) => {
                proof {
                    lemma_key_index_in(t, (a@, b@));
                }
                let c = out[idx].2;
                assert(t[idx as int].1.0 <= i);
                let x = out[idx].0.clone();
                let y = out[idx].1.clone();
                out.set(idx, (x, y, c + 1));
                assert(t[idx as int].1.1 == 0);
                assert(pair_tally_view(out@) =~= t.update(
                    idx as int,
                    ((a@, b@), (t[idx as int].1.0 + 1, t[idx as int].1.1 + 0)),
                ));
            },
            None => {
                out.push((keys[i].0.clone(), keys[i].1.clone(), 1));
                assert(pair_tally_view(out@) =~= t.push(((a@, b@), (1nat, 0nat))));
            },
        }
        i += 1;
    }
    assert(ks.take(keys.len() as int) =~= ks);
    out
}

/// Sort a tally stably by count, most frequent first.
fn sort_texts(v: Vec<(String, usize, u128)>) -> (r: Vec<(String, usize, u128)>)
    ensures
        tally_view(r@) == by_count_desc(tally_view(v@)),
{
    let ghost cv = tally_view(v@);
    let mut rest = v;
    let mut out: Vec<(String, usize, u128)> = Vec::new();
    let n = rest.len();
    let mut i: usize = 0;
    assert(cv.skip(0) =~= cv);
    assert(tally_view(out@) =~= by_count_desc(cv.take(0)));
    while i < n
        invariant
            i <= n,
            n == cv.len(),
            rest.len() == n - i,
            tally_view(rest@) == cv.skip(i as int),
            tally_view(out@) == by_count_desc(cv.take(i as int)),
        decreases n - i,
    {
        let ghost rs = rest@;
        let x = rest.remove(0);
        proof {
            assert(rest@ =~= rs.skip(1));
            assert(tally_view(rest@) =~= tally_view(rs).skip(1));
            assert(cv.skip(i as int)[0] == cv[i as int]);
            assert(tally_view(rest@) =~= cv.skip(i + 1));
            assert(cv.take(i + 1).drop_last() =~= cv.take(i as int));
            assert(cv.take(i + 1).last() == cv[i as int]);
        }
        let ghost o = tally_view(out@);
        let ghost xv = (x.0@, (x.1 as nat, x.2 as nat));
        assert(xv == cv[i as int]);
        let mut j = out.len();
        assert(o.take(j as int) =~= o);
        assert(o.skip(j as int) =~= Seq::<(Seq<char>, (nat, nat))>::empty());
        while j > 0 && out[j - 1].1 < x.1
            invariant
                j <= out.len(),
                o == tally_view(out@),
                xv == (x.0@, (x.1 as nat, x.2 as nat)),
                insert_by_count(o, xv) == insert_by_count(o.take(j as int), xv) + o.skip(j as int),
            decreases j,
        {
            assert(o.take(j as int).last() == o[j - 1]);
            assert(o.take(j as int).drop_last() =~= o.take(j - 1));
            assert(o.skip(j - 1) =~= seq![o[j - 1]] + o.skip(j as int));
            assert(insert_by_count(o.take(j - 1), xv).push(o[j - 1]) + o.skip(j as int) =~= insert_by_count(
                o.take(j - 1),
                xv,
            ) + o.skip(j - 1));
            j -= 1;
        }
        proof {
            if j > 0 {
                assert(o.take(j as int).last() == o[j - 1]);
            }
            assert(insert_by_count(o.take(j as int), xv) == o.take(j as int).push(xv));
        }
        out.insert(j, x);
        assert(tally_view(out@) =~= o.take(j as int).push(xv) + o.skip(j as int));
        i += 1;
    }
    assert(cv.take(n as int) =~= cv);
    out
}

/// Sort a pair tally stably by count, most frequent first.
fn sort_pairs(v: Vec<(String, String, usize)>) -> (r: Vec<(String, String, usize)>)
    ensures
        pair_tally_view(r@) == by_count_desc(pair_tally_view(v@)),
{
    let ghost cv = pair_tally_view(v@);
    let mut rest = v;
    let mut out: Vec<(String, String, usize)> = Vec::new();
    let n = rest.len();
    let mut i: usize = 0;
    assert(cv.skip(0) =~= cv);
    assert(pair_tally_view(out@) =~= by_count_desc(cv.take(0)));
    while i < n
        invariant
            i <= n,
            n == cv.len(),
            rest.len() == n - i,
            pair_tally_view(rest@) == cv.skip(i as int),
            pair_tally_view(out@) == by_count_desc(cv.take(i as int)),
        decreases n - i,
    {
        let ghost rs = rest@;
        let x = rest.remove(0);
        proof {
            assert(rest@ =~= rs.skip(1));
            assert(pair_tally_view(rest@) =~= pair_tally_view(rs).skip(1));
            assert(cv.skip(i as int)[0] == cv[i as int]);
            assert(pair_tally_view(rest@) =~= cv.skip(i + 1));
            assert(cv.take(i + 1).drop_last() =~= cv.take(i as int));
            assert(cv.take(i + 1).last() == cv[i as int]);
        }
        let ghost o = pair_tally_view(out@);
        let ghost xv = ((x.0@, x.1@), (x.2 as nat, 0nat));
        assert(xv == cv[i as int]);
        let mut j = out.len();
        assert(o.take(j as int) =~= o);
        assert(o.skip(j as int) =~= Seq::<((Seq<char>, Seq<char>), (nat, nat))>::empty());
        while j > 0 && out[j - 1].2 < x.2
            invariant
                j <= out.len(),
                o == pair_tally_view(out@),
                xv == ((x.0@, x.1@), (x.2 as nat, 0nat)),
                insert_by_count(o, xv) == insert_by_count(o.take(j as int), xv) + o.skip(j as int),
            decreases j,
        {
            assert(o.take(j as int).last() == o[j - 1]);
            assert(o.take(j as int).drop_last() =~= o.take(j - 1));
            assert(o.skip(j - 1) =~= seq![o[j - 1]] + o.skip(j as int));
            assert(insert_by_count(o.take(j - 1), xv).push(o[j - 1]) + o.skip(j as int) =~= insert_by_count(
                o.take(j - 1),
                xv,
            ) + o.skip(j - 1));
            j -= 1;
        }
        proof {
            if j > 0 {
                assert(o.take(j as int).last() == o[j - 1]);
            }
            assert(insert_by_count(o.take(j as int), xv) == o.take(j as int).push(xv));
        }
        out.insert(j, x);
        assert(pair_tally_view(out@) =~= o.take(j as int).push(xv) + o.skip(j as int));
        i += 1;
    }
    assert(cv.take(n as int) =~= cv);
    out
}


fn command_keys_exec(entries: &Vec<LogEntry>) -> (r: Vec<(String, u64)>)
    ensures
        r@.map_values(|x: (String, u64)| (x.0@, x.1 as nat)) == command_keys(entries@),
{
    let mut out: Vec<(String, u64)> = Vec::new();
    let mut i: usize = 0;
    while i < entries.len()
        invariant
            i <= entries.len(),
            out@.map_values(|x: (String, u64)| (x.0@, x.1 as nat)) == command_keys(entries@.take(i as int)),
        decreases entries.len() - i,
    {
        let ghost before = out@;
        let c = entries[i].command.clone();
        out.push((c, entries[i].duration_ms));
        assert(out@.map_values(|x: (String, u64)| (x.0@, x.1 as nat)) =~= before.map_values(
            |x: (String, u64)| (x.0@, x.1 as nat),
        ).push((entries@[i as int].command@, entries@[i as int].duration_ms as nat)));
        assert(command_keys(entries@.take(i + 1)) =~= command_keys(entries@.take(i as int)).push(
            (entries@[i as int].command@, entries@[i as int].duration_ms as nat),
        ));
        i += 1;
    }
    assert(entries@.take(entries.len() as int) =~= entries@);
    out
}

fn args_keys_exec(entries: &Vec<LogEntry>) -> (r: Vec<(String, u64)>)
    ensures
        r@.map_values(|x: (String, u64)| (x.0@, x.1 as nat)) == args_keys(entries@),
{
    let mut out: Vec<(String, u64)> = Vec::new();
    let mut i: usize = 0;
    assert(entries@.take(0) =~= Seq::<LogEntry>::empty());
    while i < entries.len()
        invariant
            i <= entries.len(),
            out@.map_values(|x: (String, u64)| (x.0@, x.1 as nat)) == args_keys(entries@.take(i as int)),
        decreases entries.len() - i,
    {
        proof {
            crate::text::lemma_take_push(entries@, i as int);
        }
        let ghost before = out@;
        if !entries[i].args.as_str().is_empty() {
            out.push((entries[i].args.clone(), 0));
            assert(out@ == before.push((entries@[i as int].args, 0u64)));
            assert(out@.map_values(|x: (String, u64)| (x.0@, x.1 as nat)) =~= before.map_values(
                |x: (String, u64)| (x.0@, x.1 as nat),
            ).push((entries@[i as int].args@, 0nat)));
        }
        i += 1;
    }
    assert(entries@.take(entries.len() as int) =~= entries@);
    out
}

fn zero_keys_exec(entries: &Vec<LogEntry>) -> (r: Vec<(String, String)>)
    ensures
        r@.map_values(|x: (String, String)| ((x.0@, x.1@), 0nat)) == zero_keys(entries@),
{
    let mut out: Vec<(String, String)> = Vec::new();
    let mut i: usize = 0;
    assert(entries@.take(0) =~= Seq::<LogEntry>::empty());
    while i < entries.len()
        invariant
            i <= entries.len(),
            out@.map_values(|x: (String, String)| ((x.0@, x.1@), 0nat)) == zero_keys(entries@.take(i as int)),
        decreases entries.len() - i,
    {
        proof {
            crate::text::lemma_take_push(entries@, i as int);
        }
        let ghost before = out@;
        if entries[i].results == 0 {
            out.push((entries[i].command.clone(), entries[i].args.clone()));
            assert(out@.map_values(|x: (String, String)| ((x.0@, x.1@), 0nat)) =~= before.map_values(
                |x: (String, String)| ((x.0@, x.1@), 0nat),
            ).push(((entries@[i as int].command@, entries@[i as int].args@), 0nat)));
        }
        i += 1;
    }
    assert(entries@.take(entries.len() as int) =~= entries@);
    out
}

/// The lines `log --stats` prints for the whole log (see [`stats_lines`]).
pub fn format_stats(entries: &Vec<LogEntry>) -> (r: Vec<String>)
    ensures
        crate::text::views(r@) == stats_lines(entries@),
{
    let mut out: Vec<String> = Vec::new();
    if entries.len() == 0 {
        out.push(owned("No queries logged yet."));
        assert(crate::text::views(out@) =~= stats_lines(entries@));
        return out;
    }
    out.push(owned("=== Query Log Statistics ==="));
    out.push(String::new());
    let mut total = owned("Total queries: ");
    let n = usize_to_string(entries.len());
    push_str(&mut total, n.as_str());
    out.push(total);
    out.push(String::new());
    out.push(owned("Queries by command type:"));
    let ghost head = crate::text::views(out@);
    assert(head =~= seq![
        "=== Query Log Statistics ==="@,
        seq![],
        "Total queries: "@ + decimal(entries@.len()),
        seq![],
        "Queries by command type:"@,
    ]);
    let ckeys = command_keys_exec(entries);
    let cmds = sort_texts(tally_texts(&ckeys));
    let ghost cv = tally_view(cmds@);
    proof {
        let ks = ckeys@.map_values(|x: (String, u64)| (x.0@, x.1 as nat));
        assert forall|q: int| 0 <= q < ks.len() implies (#[trigger] ks[q]).1 <= u64::MAX by {}
        lemma_tally_bounds(ks, u64::MAX as nat);
        lemma_sorted_bounds(tally(ks), u64::MAX as nat);
    }
    let mut i: usize = 0;
    while i < cmds.len()
        invariant
            i <= cmds.len(),
            cv == tally_view(cmds@),
            cv == by_count_desc(tally(command_keys(entries@))),
            forall|j: int| 0 <= j < cv.len() ==> 1 <= (#[trigger] cv[j]).1.0 && cv[j].1.1 <= u64::MAX * cv[j].1.0,
            crate::text::views(out@) == head + command_lines(cv.take(i as int)),
        decreases cmds.len() - i,
    {
        let c = cmds[i].1;
        let sum = cmds[i].2;
        assert(cv[i as int] == (cmds@[i as int].0@, (c as nat, sum as nat)));
        assert(sum / (c as u128) <= u64::MAX) by (nonlinear_arith)
            requires
                1 <= c,
                sum <= u64::MAX * c,
        ;
        let avg = (sum / (c as u128)) as u64;
        let mut line = owned("  ");
        let k = pad(cmds[i].0.as_str(), 10);
        push_str(&mut line, k.as_str());
        push_str(&mut line, "  ");
        let cs = usize_to_string(c);
        let cs = pad_start(cs.as_str(), 5);
        push_str(&mut line, cs.as_str());
        push_str(&mut line, " queries  avg ");
        let a = u64_to_string(avg);
        let a = pad_start(a.as_str(), 4);
        push_str(&mut line, a.as_str());
        push_str(&mut line, "ms");
        let ghost before = crate::text::views(out@);
        out.push(line);
        assert(command_lines(cv.take(i + 1)) =~= command_lines(cv.take(i as int)).push(command_line(cv[i as int])));
        assert(crate::text::views(out@) =~= before.push(command_line(cv[i as int])));
        i += 1;
    }
    assert(cv.take(cmds.len() as int) =~= cv);
    let ghost body1 = crate::text::views(out@);
    assert(body1 == head + command_lines(cv));
    out.push(String::new());
    out.push(owned("Most queried arguments:"));
    let ghost head2 = crate::text::views(out@);
    assert(head2 =~= body1 + seq![seq![], "Most queried arguments:"@]);
    let akeys = args_keys_exec(entries);
    let args = sort_texts(tally_texts(&akeys));
    let ghost av = tally_view(args@);
    let limit = if args.len() < 10 {
        args.len()
    } else {
        10
    };
    assert(top10(av) =~= av.take(limit as int));
    let mut i: usize = 0;
    while i < limit
        invariant
            i <= limit <= args.len(),
            av == tally_view(args@),
            av == by_count_desc(tally(args_keys(entries@))),
            crate::text::views(out@) == head2 + args_lines(av.take(i as int)),
        decreases limit - i,
    {
        assert(av[i as int] == (args@[i as int].0@, (args@[i as int].1 as nat, args@[i as int].2 as nat)));
        let mut line = owned("  ");
        let cs = usize_to_string(args[i].1);
        let cs = pad_start(cs.as_str(), 4);
        push_str(&mut line, cs.as_str());
        push_str(&mut line, "x  ");
        let e = elide_exec(args[i].0.as_str(), 50, 47);
        push_str(&mut line, e.as_str());
        let ghost before = crate::text::views(out@);
        out.push(line);
        assert(args_lines(av.take(i + 1)) =~= args_lines(av.take(i as int)).push(args_line(av[i as int])));
        assert(crate::text::views(out@) =~= before.push(args_line(av[i as int])));
        i += 1;
    }
    let zkeys = zero_keys_exec(entries);
    proof {
        assert(zkeys@.map_values(|x: (String, String)| ((x.0@, x.1@), 0nat)).len() == zkeys@.len());
        assert(zkeys@.len() == zero_keys(entries@).len());
        assert(av.take(limit as int) == top10(av));
    }
    let ghost base = crate::text::views(out@);
    assert(base == head2 + args_lines(top10(av)));
    if zkeys.len() == 0 {
        assert(crate::text::views(out@) =~= stats_lines(entries@));
        return out;
    }
    out.push(String::new());
    let mut zl = owned("Queries with 0 results (");
    let zn = usize_to_string(zkeys.len());
    push_str(&mut zl, zn.as_str());
    push_str(&mut zl, " total):");
    out.push(zl);
    let ghost head3 = crate::text::views(out@);
    assert(head3 =~= base + seq![seq![], "Queries with 0 results ("@ + decimal(zero_count(entries@)) + " total):"@]);
    let zeros = sort_pairs(tally_pairs(&zkeys));
    let ghost zv = pair_tally_view(zeros@);
    let zlimit = if zeros.len() < 10 {
        zeros.len()
    } else {
        10
    };
    assert(top10(zv) =~= zv.take(zlimit as int));
    let mut i: usize = 0;
    while i < zlimit
        invariant
            i <= zlimit <= zeros.len(),
            zv == pair_tally_view(zeros@),
            zv == by_count_desc(tally(zero_keys(entries@))),
            crate::text::views(out@) == head3 + zero_lines(zv.take(i as int)),
        decreases zlimit - i,
    {
        assert(zv[i as int] == ((zeros@[i as int].0@, zeros@[i as int].1@), (zeros@[i as int].2 as nat, 0nat)));
        let mut line = owned("  ");
        let cs = usize_to_string(zeros[i].2);
        let cs = pad_start(cs.as_str(), 4);
        push_str(&mut line, cs.as_str());
        push_str(&mut line, "x  ");
        push_str(&mut line, zeros[i].0.as_str());
        push_str(&mut line, " ");
        let e = elide_exec(zeros[i].1.as_str(), 40, 37);
        push_str(&mut line, e.as_str());
        let ghost before = crate::text::views(out@);
        out.push(line);
        assert(zero_lines(zv.take(i + 1)) =~= zero_lines(zv.take(i as int)).push(zero_line(zv[i as int])));
        assert(crate::text::views(out@) =~= before.push(zero_line(zv[i as int])));
        i += 1;
    }
    assert(zv.take(zlimit as int) == top10(zv));
    assert(crate::text::views(out@) =~= stats_lines(entries@));
    out
}

pub proof fn lemma_insert_bounds<K>(s: Seq<(K, (nat, nat))>, x: (K, (nat, nat)), bound: nat)
    requires
        forall|j: int| 0 <= j < s.len() ==> 1 <= (#[trigger] s[j]).1.0 && s[j].1.1 <= bound * s[j].1.0,
        1 <= x.1.0 && x.1.1 <= bound * x.1.0,
    ensures
        forall|j: int| 0 <= j < insert_by_count(s, x).len() ==> 1 <= (#[trigger] insert_by_count(s, x)[j]).1.0
            && insert_by_count(s, x)[j].1.1 <= bound * insert_by_count(s, x)[j].1.0,
    decreases s.len(),
{
    if s.len() > 0 && s.last().1.0 < x.1.0 {
        assert forall|j: int| 0 <= j < s.drop_last().len() implies 1 <= (#[trigger] s.drop_last()[j]).1.0
            && s.drop_last()[j].1.1 <= bound * s.drop_last()[j].1.0 by {
            assert(s.drop_last()[j] == s[j]);
        }
        lemma_insert_bounds(s.drop_last(), x, bound);
        assert(s[s.len() - 1] == s.last());
        let r = insert_by_count(s.drop_last(), x);
        assert forall|j: int| 0 <= j < r.push(s.last()).len() implies 1 <= (#[trigger] r.push(s.last())[j]).1.0
            && r.push(s.last())[j].1.1 <= bound * r.push(s.last())[j].1.0 by {
            if j < r.len() {
                assert(r.push(s.last())[j] == r[j]);
            }
        }
    } else if s.len() > 0 {
        assert forall|j: int| 0 <= j < s.push(x).len() implies 1 <= (#[trigger] s.push(x)[j]).1.0 && s.push(x)[j].1.1
            <= bound * s.push(x)[j].1.0 by {
            if j < s.len() {
                assert(s.push(x)[j] == s[j]);
            }
        }
    }
}

pub proof fn lemma_sorted_bounds<K>(s: Seq<(K, (nat, nat))>, bound: nat)
    requires
        forall|j: int| 0 <= j < s.len() ==> 1 <= (#[trigger] s[j]).1.0 && s[j].1.1 <= bound * s[j].1.0,
    ensures
        forall|j: int| 0 <= j < by_count_desc(s).len() ==> 1 <= (#[trigger] by_count_desc(s)[j]).1.0
            && by_count_desc(s)[j].1.1 <= bound * by_count_desc(s)[j].1.0,
    decreases s.len(),
{
    if s.len() > 0 {
        assert forall|j: int| 0 <= j < s.drop_last().len() implies 1 <= (#[trigger] s.drop_last()[j]).1.0
            && s.drop_last()[j].1.1 <= bound * s.drop_last()[j].1.0 by {
            assert(s.drop_last()[j] == s[j]);
        }
        lemma_sorted_bounds(s.drop_last(), bound);
        assert(s[s.len() - 1] == s.last());
        lemma_insert_bounds(by_count_desc(s.drop_last()), s.last(), bound);
    }
}

} // verus!
