//! Python conventions: dotted module paths derived from file paths, the
//! package a module lives in, and naming-convention visibility.

use vstd::prelude::*;

use crate::ir::types::{DepKind, Dependency, Field, Ir, Param, Symbol, Visibility};
use crate::parser::common::{fields_view, params_view};
use crate::parser::tree::{
    child_by_field_name, child_in_field, find_child_by_kind, is_loc_of, kind_is, lemma_children_after,
    loc_of, node_text, SyntaxTree,
};
use crate::paths::{extension_of_name, file_name, file_name_of, rfind_char_exec, to_slash_with};
use crate::split::leading_count;
use crate::split::{pieces, split_all, split_nonempty, split_on, split_words, trim_start_char, words};
use crate::text::{
    byte_len, byte_len_exec, chars_of, ends_with, owned, push_str, is_ascii_digit, is_ascii_upper, join,
    join_strings, replace_char, rfind_char, starts_with, str_ends_with, str_eq, str_starts_with,
    string_of, strip_prefix, strip_prefix_str, strip_suffix, strip_suffix_str, trim_end,
    trim, trim_end_str, trim_str, views,
};

verus! {

/// The dotted components of a module path, before joining.
pub open spec fn module_parts(p: Seq<char>) -> Seq<Seq<char>> {
    let s1 = replace_char(p, '\\', '/');
    let s2 = strip_prefix(s1, "./"@);
    let s3 = strip_prefix(s2, "src/"@);
    let s4 = if ends_with(s3, ".pyi"@) {
        strip_suffix(s3, ".pyi"@)
    } else {
        strip_suffix(s3, ".py"@)
    };
    let parts = pieces(s4, '/');
    if parts.len() > 0 && parts.last() == "__init__"@ {
        parts.drop_last()
    } else {
        parts
    }
}

/// Dotted module path of a project-relative file path: a leading `./` and
/// `src/` and the `.py`/`.pyi` extension dropped, a final `__init__` dropped.
pub open spec fn py_module_path_spec(p: Seq<char>) -> Seq<char> {
    join(module_parts(p), "."@)
}

/// Dotted module path derived from a (project-relative) file path.
/// `src/app/models/user.py` → `app.models.user`; `pkg/__init__.py` → `pkg`.
pub fn py_module_path(path: &str) -> (r: String)
    ensures
        r@ == py_module_path_spec(path@),
{
    let s1 = to_slash_with(path, '\\');
    let s2 = strip_prefix_str(s1.as_str(), "./");
    let s3 = strip_prefix_str(s2.as_str(), "src/");
    let s4 = if str_ends_with(s3.as_str(), ".pyi") {
        strip_suffix_str(s3.as_str(), ".pyi")
    } else {
        strip_suffix_str(s3.as_str(), ".py")
    };
    let mut parts = split_nonempty(s4.as_str(), '/');
    if parts.len() > 0 && str_eq(parts[parts.len() - 1].as_str(), "__init__") {
        let ghost before = views(parts@);
        parts.pop();
        assert(views(parts@) =~= before.drop_last());
    }
    join_strings(&parts, ".")
}

/// `Path::file_stem`: the file name without its extension.
pub open spec fn file_stem_spec(p: Seq<char>) -> Option<Seq<char>> {
    match file_name(p) {
        Some(n) => Some(
            match extension_of_name(n) {
                Some(e) => n.take(n.len() - e.len() - 1),
                None => n,
            },
        ),
        None => None,
    }
}

/// The file name of `p` without its extension.
pub fn file_stem(p: &str) -> (r: Option<String>)
    ensures
        match r {
            Some(s) => file_stem_spec(p@) == Some(s@),
            None => file_stem_spec(p@) is None,
        },
{
    match file_name_of(p) {
        None => None,
        Some(n) => {
            let v = chars_of(n.as_str());
            match rfind_char_exec(&v, '.') {
                Some(i) => {
                    if i > 0 {
                        let s = string_of(&v, 0, i);
                        assert(s@ =~= n@.take(n@.len() - n@.skip(i + 1).len() - 1));
                        Some(s)
                    } else {
                        Some(n)
                    }
                },
                None => Some(n),
            }
        },
    }
}

/// The package a module lives in: the module itself for an `__init__`
/// file, otherwise the module without its last component.
pub open spec fn package_path_spec(p: Seq<char>, module: Seq<char>) -> Seq<Seq<char>> {
    let parts = if module.len() == 0 {
        seq![]
    } else {
        split_on(module, '.')
    };
    if file_stem_spec(p) == Some("__init__"@) || parts.len() == 0 {
        parts
    } else {
        parts.drop_last()
    }
}

/// The package a module lives in (used to resolve relative imports).
pub fn package_path(path: &str, module: &str) -> (r: Vec<String>)
    ensures
        views(r@) == package_path_spec(path@, module@),
{
    let mut parts: Vec<String> = if module.is_empty() {
        let v: Vec<String> = Vec::new();
        assert(views(v@) =~= Seq::<Seq<char>>::empty());
        v
    } else {
        split_all(module, '.')
    };
    let is_init = match file_stem(path) {
        Some(s) => str_eq(s.as_str(), "__init__"),
        None => false,
    };
    if is_init || parts.len() == 0 {
        parts
    } else {
        let ghost before = views(parts@);
        parts.pop();
        assert(views(parts@) =~= before.drop_last());
        parts
    }
}

/// A double-underscore name such as `__init__`.
pub open spec fn is_dunder_spec(name: Seq<char>) -> bool {
    byte_len(name) > 4 && starts_with(name, "__"@) && ends_with(name, "__"@)
}

/// Whether `name` is a dunder name.
pub fn is_dunder(name: &str) -> (r: bool)
    ensures
        r == is_dunder_spec(name@),
{
    byte_len_exec(name) > 4 && str_starts_with(name, "__") && str_ends_with(name, "__")
}

/// Visibility by naming convention.
pub open spec fn visibility_spec(name: Seq<char>) -> Visibility {
    if is_dunder_spec(name) {
        Visibility::Public
    } else if name.len() > 0 && name[0] == '_' {
        Visibility::Private
    } else {
        Visibility::Public
    }
}

/// Visibility by naming convention: dunder → public, leading `_` → private.
pub fn visibility(name: &str) -> (r: Visibility)
    ensures
        r == visibility_spec(name@),
{
    if is_dunder(name) {
        Visibility::Public
    } else {
        let v = chars_of(name);
        if v.len() > 0 && v[0] == '_' {
            Visibility::Private
        } else {
            Visibility::Public
        }
    }
}

/// A character allowed in an upper-snake-case name.
pub open spec fn is_upper_snake_char(c: char) -> bool {
    is_ascii_upper(c) || is_ascii_digit(c) || c == '_'
}

/// UPPER_SNAKE_CASE after any leading underscores, at least two characters,
/// starting with an upper-case ASCII letter. (Every such character is ASCII,
/// so counting characters and counting bytes agree.)
pub open spec fn is_constant_name_spec(name: Seq<char>) -> bool {
    let body = trim_start_char(name, '_');
    &&& body.len() >= 2
    &&& is_ascii_upper(body[0])
    &&& forall|i: int| 0 <= i < body.len() ==> is_upper_snake_char(#[trigger] body[i])
}

/// UPPER_SNAKE_CASE (optionally with leading underscores), at least one letter.
pub fn is_constant_name(name: &str) -> (r: bool)
    ensures
        r == is_constant_name_spec(name@),
{
    let v = chars_of(name);
    let mut k: usize = 0;
    assert(v@.skip(0) =~= v@);
    while k < v.len() && v[k] == '_'
        invariant
            k <= v.len(),
            v@ == name@,
            trim_start_char(name@, '_') == trim_start_char(v@.skip(k as int), '_'),
        decreases v.len() - k,
    {
        assert(v@.skip(k as int).drop_first() =~= v@.skip(k + 1));
        k += 1;
    }
    let ghost body = v@.skip(k as int);
    assert(trim_start_char(body, '_') == body);
    if v.len() - k < 2 {
        return false;
    }
    let c0 = v[k];
    if !('A' <= c0 && c0 <= 'Z') {
        return false;
    }
    let mut i = k;
    while i < v.len()
        invariant
            k <= i <= v.len(),
            body == v@.skip(k as int),
            trim_start_char(name@, '_') == body,
            forall|j: int| 0 <= j < i - k ==> is_upper_snake_char(#[trigger] body[j]),
        decreases v.len() - i,
    {
        let c = v[i];
        if !(('A' <= c && c <= 'Z') || ('0' <= c && c <= '9') || c == '_') {
            assert(!is_upper_snake_char(body[i - k]));
            return false;
        }
        i += 1;
    }
    true
}

/// All runs of whitespace collapsed into single spaces, ends trimmed.
pub open spec fn squash_spec(text: Seq<char>) -> Seq<char> {
    join(words(text), " "@)
}

/// Collapse all runs of whitespace (including newlines) into single spaces.
pub fn squash(text: &str) -> (r: String)
    ensures
        r@ == squash_spec(text@),
{
    let w = split_words(text);
    join_strings(&w, " ")
}

/// `s` cut to `max` characters, trailing whitespace of the cut removed and
/// `...` appended, when it is longer than that.
pub open spec fn truncate_spec(s: Seq<char>, max: nat) -> Seq<char> {
    if s.len() <= max {
        s
    } else {
        trim_end(s.take(max as int)) + "..."@
    }
}

/// Cut a long text to `max` characters followed by `...`.
pub fn truncate(s: String, max: usize) -> (r: String)
    ensures
        r@ == truncate_spec(s@, max as nat),
{
    let v = chars_of(s.as_str());
    if v.len() <= max {
        s
    } else {
        let cut = string_of(&v, 0, max);
        assert(cut@ =~= s@.take(max as int));
        let mut r = trim_end_str(cut.as_str());
        crate::text::push_str(&mut r, "...");
        r
    }
}

// ---------------------------------------------------------------------------
// Tree helpers
// ---------------------------------------------------------------------------

pub open spec fn is_named(t: SyntaxTree, c: int) -> bool {
    t.nodes@[c].named
}

/// The first of the nodes `cs` that is named.
pub open spec fn first_named(t: SyntaxTree, cs: Seq<usize>) -> Option<usize>
    decreases cs.len(),
{
    if cs.len() == 0 {
        None
    } else if is_named(t, cs[0] as int) {
        Some(cs[0])
    } else {
        first_named(t, cs.drop_first())
    }
}

/// The first of the nodes `cs` that is named and of kind `k`.
pub open spec fn first_named_of_kind(t: SyntaxTree, cs: Seq<usize>, k: Seq<char>) -> Option<usize>
    decreases cs.len(),
{
    if cs.len() == 0 {
        None
    } else if is_named(t, cs[0] as int) && t.kind(cs[0] as int) == k {
        Some(cs[0])
    } else {
        first_named_of_kind(t, cs.drop_first(), k)
    }
}

/// The first named child of `n` of kind `k`.
pub fn first_named_child_of_kind(t: &SyntaxTree, n: usize, k: &str) -> (r: Option<usize>)
    requires
        t.wf(),
        n < t.len(),
    ensures
        r == first_named_of_kind(*t, t.children(n as int), k@),
        r matches Some(c) ==> n < c < t.len() && t.kind(c as int) == k@ && t.nodes@[c as int].named,
{
    let cs = &t.nodes[n].children;
    let ghost all = t.children(n as int);
    proof {
        lemma_children_after(*t, n as int);
        assert(all.skip(0) =~= all);
    }
    let mut i: usize = 0;
    while i < cs.len()
        invariant
            i <= cs.len(),
            t.wf(),
            all == cs@,
            forall|j: int| 0 <= j < all.len() ==> n < #[trigger] all[j] < t.len(),
            all == t.children(n as int),
            first_named_of_kind(*t, all, k@) == first_named_of_kind(*t, all.skip(i as int), k@),
        decreases cs.len() - i,
    {
        let c = cs[i];
        assert(all[i as int] == c);
        assert(all.skip(i as int)[0] == c);
        assert(all.skip(i as int).drop_first() =~= all.skip(i + 1));
        if t.nodes[c].named && kind_is(t, c, k) {
            assert(is_named(*t, c as int));
            return Some(c);
        }
        i += 1;
    }
    assert(all.skip(i as int) =~= Seq::<usize>::empty());
    None
}

/// The first identifier at or under `n`, depth first over named nodes.
pub open spec fn first_identifier_spec(t: SyntaxTree, n: int) -> Option<usize>
    decreases t.len() - n, 1int,
{
    if !(0 <= n < t.len()) {
        None
    } else if t.kind(n) == "identifier"@ {
        Some(n as usize)
    } else {
        first_identifier_in(t, n, t.children(n))
    }
}

/// The first identifier under the nodes `cs`, children of `n`.
pub open spec fn first_identifier_in(t: SyntaxTree, n: int, cs: Seq<usize>) -> Option<usize>
    decreases t.len() - n, 0int, cs.len(),
{
    if cs.len() == 0 || !(0 <= n < t.len()) {
        None
    } else {
        let c = cs[0] as int;
        let here = if n < c < t.len() && is_named(t, c) {
            first_identifier_spec(t, c)
        } else {
            None
        };
        if here is Some {
            here
        } else {
            first_identifier_in(t, n, cs.drop_first())
        }
    }
}

/// The first identifier at or under `n`, depth first over named nodes.
pub fn first_identifier(t: &SyntaxTree, n: usize) -> (r: Option<usize>)
    requires
        t.wf(),
        n < t.len(),
    ensures
        r == first_identifier_spec(*t, n as int),
        r matches Some(c) ==> n <= c < t.len() && t.kind(c as int) == "identifier"@,
    decreases t.len() - n,
{
    if kind_is(t, n, "identifier") {
        return Some(n);
    }
    let cs = &t.nodes[n].children;
    let ghost all = t.children(n as int);
    proof {
        lemma_children_after(*t, n as int);
        assert(all.skip(0) =~= all);
    }
    let mut i: usize = 0;
    while i < cs.len()
        invariant
            i <= cs.len(),
            t.wf(),
            n < t.len(),
            all == cs@,
            all == t.children(n as int),
            t.kind(n as int) != "identifier"@,
            forall|j: int| 0 <= j < all.len() ==> n < #[trigger] all[j] < t.len(),
            first_identifier_spec(*t, n as int) == first_identifier_in(*t, n as int, all.skip(i as int)),
        decreases cs.len() - i,
    {
        let c = cs[i];
        assert(all[i as int] == c);
        assert(all.skip(i as int)[0] == c);
        assert(all.skip(i as int).drop_first() =~= all.skip(i + 1));
        if t.nodes[c].named {
            match first_identifier(t, c) {
                Some(id) => {
                    return Some(id);
                },
                None => {},
            }
        }
        i += 1;
    }
    assert(all.skip(i as int) =~= Seq::<usize>::empty());
    None
}

/// Whether a kind ends with `_clause`.
fn is_clause(k: &str) -> (r: bool)
    ensures
        r == crate::text::ends_with(k@, "_clause"@),
{
    crate::text::str_ends_with(k, "_clause")
}

/// The named `block` nodes among `cs`.
pub open spec fn named_blocks(t: SyntaxTree, cs: Seq<usize>) -> Seq<usize>
    decreases cs.len(),
{
    if cs.len() == 0 {
        seq![]
    } else {
        let c = cs.last();
        named_blocks(t, cs.drop_last()) + if is_named(t, c as int) && t.kind(c as int) == "block"@ {
            seq![c]
        } else {
            seq![]
        }
    }
}

/// The blocks owned by the entries `cs` of a compound statement: its own
/// blocks and those of its clauses.
pub open spec fn scope_blocks_in(t: SyntaxTree, cs: Seq<usize>) -> Seq<usize>
    decreases cs.len(),
{
    if cs.len() == 0 {
        seq![]
    } else {
        let c = cs.last() as int;
        scope_blocks_in(t, cs.drop_last()) + if !is_named(t, c) {
            seq![]
        } else if t.kind(c) == "block"@ {
            seq![c as usize]
        } else if crate::text::ends_with(t.kind(c), "_clause"@) {
            named_blocks(t, t.children(c))
        } else {
            seq![]
        }
    }
}

/// Blocks directly owned by a compound statement or its clauses.
fn scope_blocks(t: &SyntaxTree, n: usize) -> (r: Vec<usize>)
    requires
        t.wf(),
        n < t.len(),
    ensures
        r@ == scope_blocks_in(*t, t.children(n as int)),
        forall|k: int| 0 <= k < r@.len() ==> n < #[trigger] r@[k] < t.len(),
{
    let mut out: Vec<usize> = Vec::new();
    let cs = &t.nodes[n].children;
    let ghost all = t.children(n as int);
    proof {
        lemma_children_after(*t, n as int);
        assert(all.take(0) =~= Seq::<usize>::empty());
    }
    let mut i: usize = 0;
    while i < cs.len()
        invariant
            i <= cs.len(),
            t.wf(),
            n < t.len(),
            all == cs@,
            forall|j: int| 0 <= j < all.len() ==> n < #[trigger] all[j] < t.len(),
            forall|k: int| 0 <= k < out@.len() ==> n < #[trigger] out@[k] < t.len(),
            out@ == scope_blocks_in(*t, all.take(i as int)),
        decreases cs.len() - i,
    {
        let c = cs[i];
        assert(all[i as int] == c);
        assert(all.take(i + 1).drop_last() =~= all.take(i as int));
        assert(all.take(i + 1).last() == c);
        let ghost before = out@;
        if t.nodes[c].named {
            if kind_is(t, c, "block") {
                out.push(c);
            } else if is_clause(t.nodes[c].kind.as_str()) {
                let inner = &t.nodes[c].children;
                let ghost ins = t.children(c as int);
                proof {
                    lemma_children_after(*t, c as int);
                    assert(ins.take(0) =~= Seq::<usize>::empty());
                    assert(out@ =~= before + named_blocks(*t, ins.take(0)));
                }
                let mut j: usize = 0;
                while j < inner.len()
                    invariant
                        j <= inner.len(),
                        t.wf(),
                        n < c < t.len(),
                        ins == inner@,
                        forall|k: int| 0 <= k < ins.len() ==> c < #[trigger] ins[k] < t.len(),
                        forall|k: int| 0 <= k < out@.len() ==> n < #[trigger] out@[k] < t.len(),
                        out@ == before + named_blocks(*t, ins.take(j as int)),
                    decreases inner.len() - j,
                {
                    let b = inner[j];
                    assert(ins[j as int] == b);
                    assert(ins.take(j + 1).drop_last() =~= ins.take(j as int));
                    if t.nodes[b].named && kind_is(t, b, "block") {
                        out.push(b);
                    }
                    j += 1;
                }
                assert(ins.take(inner.len() as int) =~= ins);
            }
        }
        assert(out@ =~= scope_blocks_in(*t, all.take(i + 1)));
        i += 1;
    }
    assert(all.take(cs.len() as int) =~= all);
    out
}

/// Is the kind one whose blocks stay in the enclosing scope?
pub open spec fn is_flattened(k: Seq<char>) -> bool {
    k == "if_statement"@ || k == "try_statement"@ || k == "with_statement"@
}

/// The statements of a block-like node `n`, with `if`/`try`/`with`
/// statements replaced by the statements of their blocks.
pub open spec fn statements_spec(t: SyntaxTree, n: int) -> Seq<usize>
    decreases t.len() - n, 2int, 0int,
{
    if !(0 <= n < t.len()) {
        seq![]
    } else {
        statements_in(t, n, t.children(n))
    }
}

/// The statements of the entries `cs` of `n`.
pub open spec fn statements_in(t: SyntaxTree, n: int, cs: Seq<usize>) -> Seq<usize>
    decreases t.len() - n, 1int, cs.len(),
{
    if cs.len() == 0 || !(0 <= n < t.len()) {
        seq![]
    } else {
        let c = cs.last() as int;
        statements_in(t, n, cs.drop_last()) + if n < c < t.len() && is_named(t, c) {
            if is_flattened(t.kind(c)) {
                blocks_statements(t, c, scope_blocks_in(t, t.children(c)))
            } else {
                seq![c as usize]
            }
        } else {
            seq![]
        }
    }
}

/// The statements of the blocks `bs` of the compound statement `c`.
pub open spec fn blocks_statements(t: SyntaxTree, c: int, bs: Seq<usize>) -> Seq<usize>
    decreases t.len() - c, 0int, bs.len(),
{
    if bs.len() == 0 || !(0 <= c < t.len()) {
        seq![]
    } else {
        let b = bs.last() as int;
        blocks_statements(t, c, bs.drop_last()) + if c < b < t.len() {
            statements_spec(t, b)
        } else {
            seq![]
        }
    }
}

/// Statements of a block-like node, flattening compound statements whose
/// bodies still belong to the same scope (`if`/`try`/`with` blocks).
fn statements(t: &SyntaxTree, n: usize) -> (r: Vec<usize>)
    requires
        t.wf(),
        n < t.len(),
    ensures
        r@ == statements_spec(*t, n as int),
        forall|k: int| 0 <= k < r@.len() ==> n < #[trigger] r@[k] < t.len(),
    decreases t.len() - n,
{
    let mut out: Vec<usize> = Vec::new();
    let cs = &t.nodes[n].children;
    let ghost all = t.children(n as int);
    proof {
        lemma_children_after(*t, n as int);
        assert(all.take(0) =~= Seq::<usize>::empty());
    }
    let mut i: usize = 0;
    while i < cs.len()
        invariant
            i <= cs.len(),
            t.wf(),
            n < t.len(),
            all == cs@,
            all == t.children(n as int),
            forall|j: int| 0 <= j < all.len() ==> n < #[trigger] all[j] < t.len(),
            forall|k: int| 0 <= k < out@.len() ==> n < #[trigger] out@[k] < t.len(),
            out@ == statements_in(*t, n as int, all.take(i as int)),
        decreases cs.len() - i,
    {
        let c = cs[i];
        assert(all[i as int] == c);
        assert(all.take(i + 1).drop_last() =~= all.take(i as int));
        assert(all.take(i + 1).last() == c);
        let ghost before = out@;
        if t.nodes[c].named {
            if kind_is(t, c, "if_statement") || kind_is(t, c, "try_statement") || kind_is(t, c, "with_statement") {
                let blocks = scope_blocks(t, c);
                let ghost bs = blocks@;
                assert(out@ =~= before + blocks_statements(*t, c as int, bs.take(0)));
                let mut j: usize = 0;
                while j < blocks.len()
                    invariant
                        j <= blocks.len(),
                        t.wf(),
                        n < c < t.len(),
                        bs == blocks@,
                        forall|k: int| 0 <= k < blocks@.len() ==> c < #[trigger] blocks@[k] < t.len(),
                        forall|k: int| 0 <= k < out@.len() ==> n < #[trigger] out@[k] < t.len(),
                        out@ == before + blocks_statements(*t, c as int, bs.take(j as int)),
                    decreases blocks.len() - j,
                {
                    let b = blocks[j];
                    assert(blocks@[j as int] == b);
                    assert(bs.take(j + 1).drop_last() =~= bs.take(j as int));
                    assert(bs.take(j + 1).last() == b);
                    let inner = statements(t, b);
                    let ghost mid = out@;
                    let mut k: usize = 0;
                    while k < inner.len()
                        invariant
                            k <= inner.len(),
                            n < c < b < t.len(),
                            forall|q: int| 0 <= q < inner@.len() ==> b < #[trigger] inner@[q] < t.len(),
                            forall|q: int| 0 <= q < out@.len() ==> n < #[trigger] out@[q] < t.len(),
                            out@ == mid + inner@.take(k as int),
                        decreases inner.len() - k,
                    {
                        assert(inner@[k as int] > b);
                        out.push(inner[k]);
                        assert(inner@.take(k + 1) =~= inner@.take(k as int).push(inner@[k as int]));
                        k += 1;
                    }
                    assert(inner@.take(inner.len() as int) =~= inner@);
                    assert(out@ =~= before + blocks_statements(*t, c as int, bs.take(j + 1)));
                    j += 1;
                }
                assert(bs.take(blocks.len() as int) =~= bs);
            } else {
                out.push(c);
            }
        }
        assert(out@ =~= statements_in(*t, n as int, all.take(i + 1)));
        i += 1;
    }
    assert(all.take(cs.len() as int) =~= all);
    out
}

/// Name of a base class expression.
pub open spec fn base_name_spec(t: SyntaxTree, n: int) -> Option<Seq<char>>
    decreases t.len() - n,
{
    if !(0 <= n < t.len()) {
        None
    } else if t.kind(n) == "identifier"@ {
        Some(t.text(n))
    } else if t.kind(n) == "attribute"@ {
        match child_in_field(t, n, "attribute"@) {
            Some(a) => Some(t.text(a as int)),
            None => None,
        }
    } else if t.kind(n) == "subscript"@ {
        match child_in_field(t, n, "value"@) {
            Some(v) => if n < v < t.len() { base_name_spec(t, v as int) } else { None },
            None => None,
        }
    } else if t.kind(n) == "call"@ {
        match child_in_field(t, n, "function"@) {
            Some(f) => if n < f < t.len() { base_name_spec(t, f as int) } else { None },
            None => None,
        }
    } else {
        None
    }
}

/// Name of a base class expression: `Bar` → Bar, `mod.Baz` → Baz,
/// `Generic[T]` → Generic; keyword arguments and splats have none.
fn base_name(t: &SyntaxTree, n: usize) -> (r: Option<String>)
    requires
        t.wf(),
        n < t.len(),
    ensures
        match r {
            Some(x) => base_name_spec(*t, n as int) == Some(x@),
            None => base_name_spec(*t, n as int) is None,
        },
    decreases t.len() - n,
{
    if kind_is(t, n, "identifier") {
        Some(node_text(t, n))
    } else if kind_is(t, n, "attribute") {
        match child_by_field_name(t, n, "attribute") {
            Some(a) => Some(node_text(t, a)),
            None => None,
        }
    } else if kind_is(t, n, "subscript") {
        match child_by_field_name(t, n, "value") {
            Some(v) => base_name(t, v),
            None => None,
        }
    } else if kind_is(t, n, "call") {
        match child_by_field_name(t, n, "function") {
            Some(f) => base_name(t, f),
            None => None,
        }
    } else {
        None
    }
}

/// The squashed texts of the named decorators among `cs`.
pub open spec fn decorators_in(t: SyntaxTree, cs: Seq<usize>) -> Seq<Seq<char>>
    decreases cs.len(),
{
    if cs.len() == 0 {
        seq![]
    } else {
        let c = cs.last() as int;
        decorators_in(t, cs.drop_last()) + if is_named(t, c) && t.kind(c) == "decorator"@ {
            seq![squash_spec(t.text(c))]
        } else {
            seq![]
        }
    }
}

/// The squashed texts of the decorators of a decorated definition.
fn decorators(t: &SyntaxTree, n: usize) -> (r: Vec<String>)
    requires
        t.wf(),
        n < t.len(),
    ensures
        views(r@) == decorators_in(*t, t.children(n as int)),
{
    let mut out: Vec<String> = Vec::new();
    let cs = &t.nodes[n].children;
    let ghost all = t.children(n as int);
    proof {
        lemma_children_after(*t, n as int);
        assert(all.take(0) =~= Seq::<usize>::empty());
        assert(views(out@) =~= Seq::<Seq<char>>::empty());
    }
    let mut i: usize = 0;
    while i < cs.len()
        invariant
            i <= cs.len(),
            t.wf(),
            all == cs@,
            forall|j: int| 0 <= j < all.len() ==> n < #[trigger] all[j] < t.len(),
            views(out@) == decorators_in(*t, all.take(i as int)),
        decreases cs.len() - i,
    {
        let c = cs[i];
        assert(all[i as int] == c);
        assert(all.take(i + 1).drop_last() =~= all.take(i as int));
        let ghost before = views(out@);
        if t.nodes[c].named && kind_is(t, c, "decorator") {
            out.push(squash(t.nodes[c].text.as_str()));
        }
        assert(views(out@) =~= decorators_in(*t, all.take(i + 1)));
        i += 1;
    }
    assert(all.take(cs.len() as int) =~= all);
    out
}

/// The squashed text of field `f` of `n`.
pub open spec fn squashed_field_spec(t: SyntaxTree, n: int, f: Seq<char>) -> Option<Seq<char>> {
    match child_in_field(t, n, f) {
        Some(c) => Some(squash_spec(t.text(c as int))),
        None => None,
    }
}

/// The squashed text of field `f` of `n`, if present.
fn squashed_field(t: &SyntaxTree, n: usize, f: &str) -> (r: Option<String>)
    requires
        t.wf(),
        n < t.len(),
    ensures
        match r {
            Some(x) => squashed_field_spec(*t, n as int, f@) == Some(x@),
            None => squashed_field_spec(*t, n as int, f@) is None,
        },
{
    match child_by_field_name(t, n, f) {
        Some(c) => Some(squash(t.nodes[c].text.as_str())),
        None => None,
    }
}

/// `x`, or the empty text for `None`.
pub open spec fn or_empty(o: Option<Seq<char>>) -> Seq<char> {
    match o {
        Some(x) => x,
        None => seq![],
    }
}

/// The name and type a parameter node `p` declares, if it is a parameter.
pub open spec fn param_entry(t: SyntaxTree, p: int) -> Option<(Seq<char>, Seq<char>)> {
    let k = t.kind(p);
    if k == "identifier"@ || k == "list_splat_pattern"@ || k == "dictionary_splat_pattern"@ {
        Some((t.text(p), seq![]))
    } else if k == "typed_parameter"@ {
        let name = match first_named(t, t.children(p)) {
            Some(c) => t.text(c as int),
            None => seq![],
        };
        Some((name, or_empty(squashed_field_spec(t, p, "type"@))))
    } else if k == "default_parameter"@ || k == "typed_default_parameter"@ {
        let name = match child_in_field(t, p, "name"@) {
            Some(c) => t.text(c as int),
            None => seq![],
        };
        Some((name, or_empty(squashed_field_spec(t, p, "type"@))))
    } else if k == "tuple_pattern"@ {
        Some((squash_spec(t.text(p)), seq![]))
    } else {
        None
    }
}

/// The named parameters among `cs`, as (name, type).
pub open spec fn params_in(t: SyntaxTree, cs: Seq<usize>) -> Seq<(Seq<char>, Seq<char>)>
    decreases cs.len(),
{
    if cs.len() == 0 {
        seq![]
    } else {
        let p = cs.last() as int;
        params_in(t, cs.drop_last()) + if is_named(t, p) {
            match param_entry(t, p) {
                Some(e) => if e.0.len() > 0 {
                    seq![e]
                } else {
                    seq![]
                },
                None => seq![],
            }
        } else {
            seq![]
        }
    }
}

/// The first named child of `n`.
fn first_named_child(t: &SyntaxTree, n: usize) -> (r: Option<usize>)
    requires
        t.wf(),
        n < t.len(),
    ensures
        r == first_named(*t, t.children(n as int)),
        r matches Some(c) ==> n < c < t.len(),
{
    let cs = &t.nodes[n].children;
    let ghost all = t.children(n as int);
    proof {
        lemma_children_after(*t, n as int);
        assert(all.skip(0) =~= all);
    }
    let mut i: usize = 0;
    while i < cs.len()
        invariant
            i <= cs.len(),
            t.wf(),
            all == cs@,
            forall|j: int| 0 <= j < all.len() ==> n < #[trigger] all[j] < t.len(),
            all == t.children(n as int),
            first_named(*t, all) == first_named(*t, all.skip(i as int)),
        decreases cs.len() - i,
    {
        let c = cs[i];
        assert(all[i as int] == c);
        assert(all.skip(i as int)[0] == c);
        assert(all.skip(i as int).drop_first() =~= all.skip(i + 1));
        if t.nodes[c].named {
            assert(is_named(*t, c as int));
            return Some(c);
        }
        i += 1;
    }
    assert(all.skip(i as int) =~= Seq::<usize>::empty());
    None
}

/// The name and type a parameter node declares.
fn param_of(t: &SyntaxTree, p: usize) -> (r: Option<(String, String)>)
    requires
        t.wf(),
        p < t.len(),
    ensures
        match r {
            Some(e) => param_entry(*t, p as int) == Some((e.0@, e.1@)),
            None => param_entry(*t, p as int) is None,
        },
{
    if kind_is(t, p, "identifier") || kind_is(t, p, "list_splat_pattern") || kind_is(t, p, "dictionary_splat_pattern") {
        Some((node_text(t, p), String::new()))
    } else if kind_is(t, p, "typed_parameter") {
        let name = match first_named_child(t, p) {
            Some(c) => node_text(t, c),
            None => String::new(),
        };
        let ty = match squashed_field(t, p, "type") {
            Some(x) => x,
            None => String::new(),
        };
        Some((name, ty))
    } else if kind_is(t, p, "default_parameter") || kind_is(t, p, "typed_default_parameter") {
        let name = match child_by_field_name(t, p, "name") {
            Some(c) => node_text(t, c),
            None => String::new(),
        };
        let ty = match squashed_field(t, p, "type") {
            Some(x) => x,
            None => String::new(),
        };
        Some((name, ty))
    } else if kind_is(t, p, "tuple_pattern") {
        Some((squash(t.nodes[p].text.as_str()), String::new()))
    } else {
        None
    }
}

/// The parameters of a parameter list; separators and comments are skipped.
fn params(t: &SyntaxTree, n: usize) -> (r: Vec<Param>)
    requires
        t.wf(),
        n < t.len(),
    ensures
        params_view(r@) == params_in(*t, t.children(n as int)),
        forall|k: int| 0 <= k < r@.len() ==> (#[trigger] r@[k]).name@.len() > 0,
{
    let mut out: Vec<Param> = Vec::new();
    let cs = &t.nodes[n].children;
    let ghost all = t.children(n as int);
    proof {
        lemma_children_after(*t, n as int);
        assert(all.take(0) =~= Seq::<usize>::empty());
        assert(params_view(out@) =~= Seq::<(Seq<char>, Seq<char>)>::empty());
    }
    let mut i: usize = 0;
    while i < cs.len()
        invariant
            i <= cs.len(),
            t.wf(),
            all == cs@,
            forall|j: int| 0 <= j < all.len() ==> n < #[trigger] all[j] < t.len(),
            forall|k: int| 0 <= k < out@.len() ==> (#[trigger] out@[k]).name@.len() > 0,
            params_view(out@) == params_in(*t, all.take(i as int)),
        decreases cs.len() - i,
    {
        let p = cs[i];
        assert(all[i as int] == p);
        assert(all.take(i + 1).drop_last() =~= all.take(i as int));
        let ghost before = params_view(out@);
        if t.nodes[p].named {
            match param_of(t, p) {
                Some((name, ty)) => {
                    if !name.as_str().is_empty() {
                        out.push(Param { name, type_str: ty });
                    }
                },
                None => {},
            }
        }
        assert(params_view(out@) =~= params_in(*t, all.take(i + 1)));
        i += 1;
    }
    assert(all.take(cs.len() as int) =~= all);
    out
}

/// The squashed texts of the named entries of `cs` that are not comments.
pub open spec fn sig_parts(t: SyntaxTree, cs: Seq<usize>) -> Seq<Seq<char>>
    decreases cs.len(),
{
    if cs.len() == 0 {
        seq![]
    } else {
        let c = cs.last() as int;
        sig_parts(t, cs.drop_last()) + if is_named(t, c) && t.kind(c) != "comment"@ {
            seq![squash_spec(t.text(c))]
        } else {
            seq![]
        }
    }
}

/// Parameter list text for signatures: every parameter as written,
/// whitespace-normalized, comments dropped, joined by `, `.
fn signature_params(t: &SyntaxTree, n: usize) -> (r: String)
    requires
        t.wf(),
        n < t.len(),
    ensures
        r@ == join(sig_parts(*t, t.children(n as int)), ", "@),
{
    let mut parts: Vec<String> = Vec::new();
    let cs = &t.nodes[n].children;
    let ghost all = t.children(n as int);
    proof {
        lemma_children_after(*t, n as int);
        assert(all.take(0) =~= Seq::<usize>::empty());
        assert(views(parts@) =~= Seq::<Seq<char>>::empty());
    }
    let mut i: usize = 0;
    while i < cs.len()
        invariant
            i <= cs.len(),
            t.wf(),
            all == cs@,
            forall|j: int| 0 <= j < all.len() ==> n < #[trigger] all[j] < t.len(),
            views(parts@) == sig_parts(*t, all.take(i as int)),
        decreases cs.len() - i,
    {
        let c = cs[i];
        assert(all[i as int] == c);
        assert(all.take(i + 1).drop_last() =~= all.take(i as int));
        if t.nodes[c].named && !kind_is(t, c, "comment") {
            parts.push(squash(t.nodes[c].text.as_str()));
        }
        assert(views(parts@) =~= sig_parts(*t, all.take(i + 1)));
        i += 1;
    }
    assert(all.take(cs.len() as int) =~= all);
    join_strings(&parts, ", ")
}

/// `module.name`, or `name` alone in a file with no module path.
pub open spec fn qualify_spec(module: Seq<char>, name: Seq<char>) -> Seq<char> {
    if module.len() == 0 {
        name
    } else {
        module + "."@ + name
    }
}

fn qualify(module: &str, name: &str) -> (r: String)
    ensures
        r@ == qualify_spec(module@, name@),
{
    crate::parser::go::qualified(module, name)
}

/// The text of the `name` field of `n`, empty without one.
pub open spec fn py_name_spec(t: SyntaxTree, n: int) -> Seq<char> {
    match child_in_field(t, n, "name"@) {
        Some(c) => t.text(c as int),
        None => seq![],
    }
}

/// Is the definition `n` an `async def`?
pub open spec fn is_async_def(t: SyntaxTree, n: int) -> bool {
    t.children(n).len() > 0 && t.kind(t.children(n)[0] as int) == "async"@
}

/// Does the decorator text make a method static?
pub open spec fn is_static_decorator(d: Seq<char>) -> bool {
    d == "@staticmethod"@ || ends_with(d, ".staticmethod"@)
}

pub open spec fn has_static_decorator(decos: Seq<Seq<char>>) -> bool {
    exists|i: int| 0 <= i < decos.len() && is_static_decorator(#[trigger] decos[i])
}

/// The names a method's receiver goes by.
pub open spec fn is_receiver_name(name: Seq<char>) -> bool {
    name == "self"@ || name == "cls"@ || name == "mcs"@ || name == "mcls"@ || name == "metacls"@
}

/// The parameters of the definition `n`, the receiver of a method (not a
/// static one) left out.
pub open spec fn def_params(t: SyntaxTree, n: int, decos: Seq<Seq<char>>, in_class: bool) -> Seq<(Seq<char>, Seq<char>)> {
    let ps = match child_in_field(t, n, "parameters"@) {
        Some(p) => params_in(t, t.children(p as int)),
        None => seq![],
    };
    if in_class && !has_static_decorator(decos) && ps.len() > 0 && is_receiver_name(ps[0].0) {
        ps.drop_first()
    } else {
        ps
    }
}

/// The signature of the definition `n`:
/// `[async ]def name[type params](params)[ -> return]`.
pub open spec fn def_signature(t: SyntaxTree, n: int) -> Seq<char> {
    let sp = match child_in_field(t, n, "parameters"@) {
        Some(p) => join(sig_parts(t, t.children(p as int)), ", "@),
        None => seq![],
    };
    let head: Seq<char> = if is_async_def(t, n) {
        "async "@
    } else {
        seq![]
    };
    let tail: Seq<char> = match squashed_field_spec(t, n, "return_type"@) {
        Some(r) => " -> "@ + r,
        None => seq![],
    };
    head + "def "@ + py_name_spec(t, n) + or_empty(squashed_field_spec(t, n, "type_parameters"@)) + "("@ + sp + ")"@
        + tail
}

/// What the definition `n` with the decorators `decos` yields: a `def` of
/// the module, or a `method` of the class (name, qualified name) `class`.
pub open spec fn is_py_function_symbol(
    s: Symbol,
    t: SyntaxTree,
    n: int,
    path: Seq<char>,
    module: Seq<char>,
    decos: Seq<Seq<char>>,
    class: Option<(Seq<char>, Seq<char>)>,
) -> bool {
    let name = py_name_spec(t, n);
    &&& s.name@ == name
    &&& is_loc_of(s.loc, t, n, path)
    &&& s.visibility == visibility_spec(name)
    &&& s.signature matches Some(sig) && sig@ == def_signature(t, n)
    &&& views(s.attributes@) == (if is_async_def(t, n) {
        decos.push("async"@)
    } else {
        decos
    })
    &&& s.fields@.len() == 0
    &&& params_view(s.params@) == def_params(t, n, decos, class is Some)
    &&& match squashed_field_spec(t, n, "return_type"@) {
        Some(r) => s.return_type matches Some(x) && x@ == r,
        None => s.return_type is None,
    }
    &&& match class {
        Some((cname, cqn)) => {
            &&& s.kind@ == "method"@
            &&& s.qualified_name@ == cqn + "."@ + name
            &&& s.parent matches Some(p) && p@ == cname
        },
        None => {
            &&& s.kind@ == "def"@
            &&& s.qualified_name@ == qualify_spec(module, name)
            &&& s.parent is None
        },
    }
}

pub open spec fn class_view(c: Option<(&str, &str)>) -> Option<(Seq<char>, Seq<char>)> {
    match c {
        Some((a, b)) => Some((a@, b@)),
        None => None,
    }
}

/// A `def` at module level, or a `method` of the class (name, qualified
/// name) `class`.
fn function(
    t: &SyntaxTree,
    n: usize,
    path: &str,
    module: &str,
    decorators: &Vec<String>,
    class: Option<(&str, &str)>,
) -> (r: Symbol)
    requires
        t.wf(),
        n < t.len(),
    ensures
        is_py_function_symbol(r, *t, n as int, path@, module@, views(decorators@), class_view(class)),
        r.loc.file@ == path@,
        is_loc_of(r.loc, *t, n as int, path@),
        r.visibility == visibility_spec(r.name@),
        match class {
            Some((cname, cqn)) => {
                &&& r.kind@ == "method"@
                &&& r.qualified_name@ == cqn@ + "."@ + r.name@
                &&& r.parent matches Some(p) && p@ == cname@
            },
            None => {
                &&& r.kind@ == "def"@
                &&& r.qualified_name@ == qualify_spec(module@, r.name@)
                &&& r.parent is None
            },
        },
{
    let ghost decos = views(decorators@);
    let name = match child_by_field_name(t, n, "name") {
        Some(c) => node_text(t, c),
        None => String::new(),
    };
    assert(name@ == py_name_spec(*t, n as int));
    let cs = &t.nodes[n].children;
    proof {
        lemma_children_after(*t, n as int);
    }
    let is_async = cs.len() > 0 && kind_is(t, cs[0], "async");
    assert(is_async == is_async_def(*t, n as int));
    let mut is_static = false;
    let mut d: usize = 0;
    while d < decorators.len()
        invariant
            d <= decorators.len(),
            decos == views(decorators@),
            is_static == exists|j: int| 0 <= j < d && is_static_decorator(#[trigger] decos[j]),
        decreases decorators.len() - d,
    {
        let text = decorators[d].as_str();
        assert(decos[d as int] == text@);
        if str_eq(text, "@staticmethod") || str_ends_with(text, ".staticmethod") {
            is_static = true;
        }
        d += 1;
    }
    assert(is_static == has_static_decorator(decos));
    let params_node = child_by_field_name(t, n, "parameters");
    let mut ps = match params_node {
        Some(p) => params(t, p),
        None => Vec::new(),
    };
    let ghost all_ps = params_view(ps@);
    assert(all_ps =~= match child_in_field(*t, n as int, "parameters"@) {
        Some(p) => params_in(*t, t.children(p as int)),
        None => seq![],
    });
    match class {
        Some(_) => {
            if !is_static && ps.len() > 0 {
                let first = ps[0].name.as_str();
                assert(all_ps[0].0 == first@);
                if str_eq(first, "self") || str_eq(first, "cls") || str_eq(first, "mcs") || str_eq(first, "mcls")
                    || str_eq(first, "metacls") {
                    ps.remove(0);
                    assert(params_view(ps@) =~= all_ps.drop_first());
                }
            }
        },
        None => {},
    }
    assert(params_view(ps@) == def_params(*t, n as int, decos, class is Some));
    let return_type = squashed_field(t, n, "return_type");
    let type_params = match squashed_field(t, n, "type_parameters") {
        Some(x) => x,
        None => String::new(),
    };
    let sig_params = match params_node {
        Some(p) => signature_params(t, p),
        None => String::new(),
    };
    let mut signature = String::new();
    if is_async {
        push_str(&mut signature, "async ");
    }
    push_str(&mut signature, "def ");
    push_str(&mut signature, name.as_str());
    push_str(&mut signature, type_params.as_str());
    push_str(&mut signature, "(");
    push_str(&mut signature, sig_params.as_str());
    push_str(&mut signature, ")");
    match &return_type {
        Some(r) => {
            push_str(&mut signature, " -> ");
            push_str(&mut signature, r.as_str());
        },
        None => {},
    }
    assert(signature@ =~= def_signature(*t, n as int));
    let mut attributes: Vec<String> = Vec::new();
    let mut k: usize = 0;
    while k < decorators.len()
        invariant
            k <= decorators.len(),
            decos == views(decorators@),
            views(attributes@) == decos.take(k as int),
        decreases decorators.len() - k,
    {
        let ghost before = views(attributes@);
        let dk = decorators[k].clone();
        assert(dk@ == decos[k as int]);
        attributes.push(dk);
        assert(views(attributes@) =~= before.push(decos[k as int]));
        assert(decos.take(k + 1) =~= decos.take(k as int).push(decos[k as int]));
        k += 1;
    }
    assert(decos.take(decorators.len() as int) =~= decos);
    if is_async {
        attributes.push(owned("async"));
        assert(views(attributes@) =~= decos.push("async"@));
    }
    let (kind, qn, parent) = match class {
        Some((cname, cqn)) => {
            let mut q = owned(cqn);
            push_str(&mut q, ".");
            push_str(&mut q, name.as_str());
            (owned("method"), q, Some(owned(cname)))
        },
        None => (owned("def"), qualify(module, name.as_str()), None),
    };
    Symbol {
        visibility: visibility(name.as_str()),
        name,
        qualified_name: qn,
        kind,
        loc: loc_of(t, n, path),
        signature: Some(signature),
        parent,
        attributes,
        fields: Vec::new(),
        params: ps,
        return_type,
    }
}

// ---------------------------------------------------------------------------
// Fields
// ---------------------------------------------------------------------------

/// The first index at or after `i` of a field named `name`.
pub open spec fn field_index_from(fs: Seq<(Seq<char>, Seq<char>, Visibility)>, name: Seq<char>, i: int) -> Option<int>
    decreases fs.len() - i,
{
    if i < 0 || i >= fs.len() {
        None
    } else if fs[i].0 == name {
        Some(i)
    } else {
        field_index_from(fs, name, i + 1)
    }
}

/// `fs` after adding the field `name: ty`: dunder names are skipped, an
/// existing field of that name only gets a type it lacked.
pub open spec fn add_field(fs: Seq<(Seq<char>, Seq<char>, Visibility)>, name: Seq<char>, ty: Seq<char>) -> Seq<
    (Seq<char>, Seq<char>, Visibility),
> {
    if is_dunder_spec(name) {
        fs
    } else {
        match field_index_from(fs, name, 0) {
            Some(i) => if fs[i].1.len() == 0 && ty.len() > 0 {
                fs.update(i, (fs[i].0, ty, fs[i].2))
            } else {
                fs
            },
            None => fs.push((name, ty, visibility_spec(name))),
        }
    }
}

/// `fs` after adding the candidates `cs` in order.
pub open spec fn add_fields(fs: Seq<(Seq<char>, Seq<char>, Visibility)>, cs: Seq<(Seq<char>, Seq<char>)>) -> Seq<
    (Seq<char>, Seq<char>, Visibility),
>
    decreases cs.len(),
{
    if cs.len() == 0 {
        fs
    } else {
        add_field(add_fields(fs, cs.drop_last()), cs.last().0, cs.last().1)
    }
}

pub proof fn lemma_add_fields_cat(
    fs: Seq<(Seq<char>, Seq<char>, Visibility)>,
    a: Seq<(Seq<char>, Seq<char>)>,
    b: Seq<(Seq<char>, Seq<char>)>,
)
    ensures
        add_fields(fs, a + b) == add_fields(add_fields(fs, a), b),
    decreases b.len(),
{
    if b.len() == 0 {
        assert(a + b =~= a);
    } else {
        assert((a + b).drop_last() =~= a + b.drop_last());
        assert((a + b).last() == b.last());
        lemma_add_fields_cat(fs, a, b.drop_last());
    }
}

/// Add a field unless one with the same name exists (then fill in a missing
/// type). Dunder attributes are protocol hooks, not data fields.
fn push_field(fields: &mut Vec<Field>, name: String, ty: String)
    ensures
        fields_view(final(fields)@) == add_field(fields_view(old(fields)@), name@, ty@),
        final(fields)@.len() >= old(fields)@.len(),
{
    let ghost fs = fields_view(fields@);
    if is_dunder(name.as_str()) {
        return;
    }
    let mut i: usize = 0;
    while i < fields.len()
        invariant
            i <= fields.len(),
            fields@ == old(fields)@,
            fs == fields_view(fields@),
            !is_dunder_spec(name@),
            field_index_from(fs, name@, 0) == field_index_from(fs, name@, i as int),
        decreases fields.len() - i,
    {
        assert(fs[i as int].0 == fields@[i as int].name@);
        if str_eq(fields[i].name.as_str(), name.as_str()) {
            if fields[i].type_str.as_str().is_empty() && !ty.as_str().is_empty() {
                let ghost old_f = fields@[i as int];
                fields[i].type_str = ty;
                assert(fields_view(fields@) =~= fs.update(i as int, (fs[i as int].0, ty@, fs[i as int].2)));
            }
            return;
        }
        i += 1;
    }
    let vis = visibility(name.as_str());
    let ghost nv = name@;
    let ghost tv = ty@;
    fields.push(Field { name, type_str: ty, visibility: vis });
    assert(fields_view(fields@) =~= fs.push((nv, tv, visibility_spec(nv))));
}

/// The field a class-body assignment declares: `x: int = 0` / `x = 0`.
pub open spec fn class_field_cand(t: SyntaxTree, a: int) -> Seq<(Seq<char>, Seq<char>)> {
    match child_in_field(t, a, "left"@) {
        Some(l) => if t.kind(l as int) == "identifier"@ {
            seq![(t.text(l as int), or_empty(squashed_field_spec(t, a, "type"@)))]
        } else {
            seq![]
        },
        None => seq![],
    }
}

/// Class-body `x: int = 0` / `x = 0` → field `x`.
fn class_field(t: &SyntaxTree, assign: usize, fields: &mut Vec<Field>)
    requires
        t.wf(),
        assign < t.len(),
    ensures
        fields_view(final(fields)@) == add_fields(fields_view(old(fields)@), class_field_cand(*t, assign as int)),
{
    let ghost fs = fields_view(fields@);
    let left = match child_by_field_name(t, assign, "left") {
        Some(l) => l,
        None => {
            return;
        },
    };
    if !kind_is(t, left, "identifier") {
        return;
    }
    let name = node_text(t, left);
    let ty = match squashed_field(t, assign, "type") {
        Some(x) => x,
        None => String::new(),
    };
    let ghost c = class_field_cand(*t, assign as int);
    assert(c.drop_last() =~= Seq::<(Seq<char>, Seq<char>)>::empty());
    assert(c.last() == (name@, ty@));
    assert(add_fields(fs, c.drop_last()) == fs);
    push_field(fields, name, ty);
    assert(fields_view(fields@) == add_fields(fs, c));
}

/// The fields `self.x = ...` targets of an assignment chain declare.
pub open spec fn self_assign_cands(t: SyntaxTree, a: int) -> Seq<(Seq<char>, Seq<char>)>
    decreases t.len() - a,
{
    if !(0 <= a < t.len()) {
        seq![]
    } else {
        let own: Seq<(Seq<char>, Seq<char>)> = match child_in_field(t, a, "left"@) {
            Some(l) => if t.kind(l as int) == "attribute"@ {
                match (child_in_field(t, l as int, "object"@), child_in_field(t, l as int, "attribute"@)) {
                    (Some(o), Some(at)) => if t.text(o as int) == "self"@ {
                        seq![(t.text(at as int), or_empty(squashed_field_spec(t, a, "type"@)))]
                    } else {
                        seq![]
                    },
                    _ => seq![],
                }
            } else {
                seq![]
            },
            None => seq![],
        };
        let rest: Seq<(Seq<char>, Seq<char>)> = match child_in_field(t, a, "right"@) {
            Some(r) => if a < r < t.len() && t.kind(r as int) == "assignment"@ {
                self_assign_cands(t, r as int)
            } else {
                seq![]
            },
            None => seq![],
        };
        own + rest
    }
}

/// Record `self.x` targets of an assignment, following chains
/// (`self.a = self.b = v`).
fn self_assignment(t: &SyntaxTree, assign: usize, fields: &mut Vec<Field>)
    requires
        t.wf(),
        assign < t.len(),
    ensures
        fields_view(final(fields)@) == add_fields(fields_view(old(fields)@), self_assign_cands(*t, assign as int)),
    decreases t.len() - assign,
{
    let ghost fs = fields_view(fields@);
    let ghost own: Seq<(Seq<char>, Seq<char>)> = match child_in_field(*t, assign as int, "left"@) {
        Some(l) => if t.kind(l as int) == "attribute"@ {
            match (child_in_field(*t, l as int, "object"@), child_in_field(*t, l as int, "attribute"@)) {
                (Some(o), Some(at)) => if t.text(o as int) == "self"@ {
                    seq![(t.text(at as int), or_empty(squashed_field_spec(*t, assign as int, "type"@)))]
                } else {
                    seq![]
                },
                _ => seq![],
            }
        } else {
            seq![]
        },
        None => seq![],
    };
    assert(add_fields(fs, seq![]) == fs);
    match child_by_field_name(t, assign, "left") {
        Some(left) => {
            if kind_is(t, left, "attribute") {
                let obj = child_by_field_name(t, left, "object");
                let attr = child_by_field_name(t, left, "attribute");
                match (obj, attr) {
                    (Some(o), Some(a)) => {
                        if str_eq(t.nodes[o].text.as_str(), "self") {
                            let ty = match squashed_field(t, assign, "type") {
                                Some(x) => x,
                                None => String::new(),
                            };
                            assert(own.drop_last() =~= Seq::<(Seq<char>, Seq<char>)>::empty());
                            push_field(fields, node_text(t, a), ty);
                        }
                    },
                    _ => {},
                }
            }
        },
        None => {},
    }
    assert(fields_view(fields@) == add_fields(fs, own));
    let ghost mid = fields_view(fields@);
    match child_by_field_name(t, assign, "right") {
        Some(right) => {
            if kind_is(t, right, "assignment") {
                self_assignment(t, right, fields);
            }
        },
        None => {},
    }
    proof {
        let rest: Seq<(Seq<char>, Seq<char>)> = match child_in_field(*t, assign as int, "right"@) {
            Some(r) => if (assign as int) < r < t.len() && t.kind(r as int) == "assignment"@ {
                self_assign_cands(*t, r as int)
            } else {
                seq![]
            },
            None => seq![],
        };
        assert(fields_view(fields@) == add_fields(mid, rest));
        lemma_add_fields_cat(fs, own, rest);
        assert(self_assign_cands(*t, assign as int) == own + rest);
    }
}

/// Is the kind a definition that opens a scope of its own?
pub open spec fn is_definition_kind(k: Seq<char>) -> bool {
    k == "function_definition"@ || k == "class_definition"@ || k == "decorated_definition"@
}

/// The fields `__init__`'s body `b` assigns through `self`, outside nested
/// definitions.
pub open spec fn init_cands(t: SyntaxTree, b: int) -> Seq<(Seq<char>, Seq<char>)>
    decreases t.len() - b, 1int, 0int,
{
    if !(0 <= b < t.len()) {
        seq![]
    } else {
        init_cands_in(t, b, t.children(b))
    }
}

pub open spec fn init_cands_in(t: SyntaxTree, b: int, cs: Seq<usize>) -> Seq<(Seq<char>, Seq<char>)>
    decreases t.len() - b, 0int, cs.len(),
{
    if cs.len() == 0 || !(0 <= b < t.len()) {
        seq![]
    } else {
        let c = cs.last() as int;
        init_cands_in(t, b, cs.drop_last()) + if b < c < t.len() && is_named(t, c) {
            if is_definition_kind(t.kind(c)) {
                seq![]
            } else if t.kind(c) == "assignment"@ {
                self_assign_cands(t, c)
            } else {
                init_cands(t, c)
            }
        } else {
            seq![]
        }
    }
}

/// `self.x = ...` / `self.x: T = ...` anywhere in `__init__`, except in
/// nested definitions.
fn init_fields(t: &SyntaxTree, block: usize, fields: &mut Vec<Field>)
    requires
        t.wf(),
        block < t.len(),
    ensures
        fields_view(final(fields)@) == add_fields(fields_view(old(fields)@), init_cands(*t, block as int)),
    decreases t.len() - block,
{
    let ghost fs = fields_view(fields@);
    let cs = &t.nodes[block].children;
    let ghost all = t.children(block as int);
    proof {
        lemma_children_after(*t, block as int);
        assert(all.take(0) =~= Seq::<usize>::empty());
    }
    let mut i: usize = 0;
    while i < cs.len()
        invariant
            i <= cs.len(),
            t.wf(),
            block < t.len(),
            all == cs@,
            all == t.children(block as int),
            forall|j: int| 0 <= j < all.len() ==> block < #[trigger] all[j] < t.len(),
            fields_view(fields@) == add_fields(fs, init_cands_in(*t, block as int, all.take(i as int))),
        decreases cs.len() - i,
    {
        let c = cs[i];
        assert(all[i as int] == c);
        assert(all.take(i + 1).drop_last() =~= all.take(i as int));
        assert(all.take(i + 1).last() == c);
        let ghost before = init_cands_in(*t, block as int, all.take(i as int));
        let ghost piece: Seq<(Seq<char>, Seq<char>)> = if is_named(*t, c as int) {
            if is_definition_kind(t.kind(c as int)) {
                seq![]
            } else if t.kind(c as int) == "assignment"@ {
                self_assign_cands(*t, c as int)
            } else {
                init_cands(*t, c as int)
            }
        } else {
            seq![]
        };
        if t.nodes[c].named {
            if kind_is(t, c, "function_definition") || kind_is(t, c, "class_definition") || kind_is(
                t,
                c,
                "decorated_definition",
            ) {
            } else if kind_is(t, c, "assignment") {
                self_assignment(t, c, fields);
            } else {
                init_fields(t, c, fields);
            }
        }
        proof {
            assert(add_fields(add_fields(fs, before), seq![]) == add_fields(fs, before));
            lemma_add_fields_cat(fs, before, piece);
            assert(init_cands_in(*t, block as int, all.take(i + 1)) == before + piece);
        }
        i += 1;
    }
    assert(all.take(cs.len() as int) =~= all);
}

// ---------------------------------------------------------------------------
// What every extracted symbol and dependency satisfies
// ---------------------------------------------------------------------------

/// The symbol kinds the Python parser emits.
pub open spec fn is_py_kind(k: Seq<char>) -> bool {
    ||| k == "def"@
    ||| k == "method"@
    ||| k == "class"@
    ||| k == "const"@
    ||| k == "type"@
}

/// Where a file's imports come from: its module, or `(file)` without one.
pub open spec fn import_from_spec(module: Seq<char>) -> Seq<char> {
    if module.len() == 0 {
        "(file)"@
    } else {
        module
    }
}

/// A symbol of the module in the file `path`.
pub open spec fn py_symbol_ok(s: Symbol, module: Seq<char>, path: Seq<char>) -> bool {
    &&& s.loc.file@ == path
    &&& is_py_kind(s.kind@)
    &&& starts_with(s.qualified_name@, module)
}

/// An import of the module, or a base class of one of its classes.
pub open spec fn py_dep_ok(d: Dependency, module: Seq<char>, path: Seq<char>) -> bool {
    &&& d.loc.file@ == path
    &&& ((d.kind == DepKind::Import && d.from_qualified@ == import_from_spec(module)) || (d.kind
        == DepKind::Implements && starts_with(d.from_qualified@, module)))
}

/// `new` keeps everything of `old` and only adds valid symbols and
/// dependencies.
pub open spec fn py_grows(old: Ir, new: Ir, module: Seq<char>, path: Seq<char>) -> bool {
    &&& old.symbols@.len() <= new.symbols@.len()
    &&& old.dependencies@.len() <= new.dependencies@.len()
    &&& forall|i: int| 0 <= i < old.symbols@.len() ==> #[trigger] new.symbols@[i] == old.symbols@[i]
    &&& forall|i: int| 0 <= i < old.dependencies@.len() ==> #[trigger] new.dependencies@[i] == old.dependencies@[i]
    &&& forall|i: int| old.symbols@.len() <= i < new.symbols@.len() ==> py_symbol_ok(#[trigger] new.symbols@[i], module, path)
    &&& forall|i: int| old.dependencies@.len() <= i < new.dependencies@.len() ==> py_dep_ok(#[trigger] new.dependencies@[i], module, path)
}

/// Every symbol and dependency of `ir` is valid for the file.
pub open spec fn py_ir_ok(ir: Ir, module: Seq<char>, path: Seq<char>) -> bool {
    &&& forall|i: int| 0 <= i < ir.symbols@.len() ==> py_symbol_ok(#[trigger] ir.symbols@[i], module, path)
    &&& forall|i: int| 0 <= i < ir.dependencies@.len() ==> py_dep_ok(#[trigger] ir.dependencies@[i], module, path)
}

pub proof fn lemma_py_grows_trans(a: Ir, b: Ir, c: Ir, module: Seq<char>, path: Seq<char>)
    requires
        py_grows(a, b, module, path),
        py_grows(b, c, module, path),
    ensures
        py_grows(a, c, module, path),
{
    assert forall|i: int| a.symbols@.len() <= i < c.symbols@.len() implies py_symbol_ok(#[trigger] c.symbols@[i], module, path) by {
        if i < b.symbols@.len() {
            assert(c.symbols@[i] == b.symbols@[i]);
        }
    }
    assert forall|i: int| a.dependencies@.len() <= i < c.dependencies@.len() implies py_dep_ok(#[trigger] c.dependencies@[i], module, path) by {
        if i < b.dependencies@.len() {
            assert(c.dependencies@[i] == b.dependencies@[i]);
        }
    }
}

pub proof fn lemma_dotted_extends(base: Seq<char>, name: Seq<char>, module: Seq<char>)
    requires
        starts_with(base, module),
    ensures
        starts_with(base + "."@ + name, module),
        starts_with(qualify_spec(module, name), module),
{
    assert((base + "."@ + name).subrange(0, module.len() as int) =~= base.subrange(0, module.len() as int));
    assert(qualify_spec(module, name).subrange(0, module.len() as int) =~= module);
}

fn push_py_symbol(ir: &mut Ir, s: Symbol, Ghost(module): Ghost<Seq<char>>, Ghost(path): Ghost<Seq<char>>)
    requires
        py_symbol_ok(s, module, path),
    ensures
        py_grows(*old(ir), *final(ir), module, path),
        final(ir).symbols@ == old(ir).symbols@.push(s),
        final(ir).dependencies@ == old(ir).dependencies@,
{
    ir.symbols.push(s);
}

fn push_py_dep(ir: &mut Ir, d: Dependency, Ghost(module): Ghost<Seq<char>>, Ghost(path): Ghost<Seq<char>>)
    requires
        py_dep_ok(d, module, path),
    ensures
        py_grows(*old(ir), *final(ir), module, path),
        final(ir).dependencies@ == old(ir).dependencies@.push(d),
        final(ir).symbols@ == old(ir).symbols@,
{
    ir.dependencies.push(d);
}

// ---------------------------------------------------------------------------
// What a file yields, statement by statement
// ---------------------------------------------------------------------------

/// The definition or statement a symbol comes from.
pub enum PySymSrc {
    /// The function definition `n` with its decorators, in the class named by
    /// the third field (name, qualified name) or at module level.
    Func(int, Seq<Seq<char>>, Option<(Seq<char>, Seq<char>)>),
    /// The class definition `n` with its decorators, nested in the class named
    /// by the third field or at module level.
    Class(int, Seq<Seq<char>>, Option<(Seq<char>, Seq<char>)>),
    /// The module-level assignment `a`.
    Assign(int),
    /// The `type X = ...` statement `st`.
    Alias(int),
}

/// What a dependency comes from.
pub enum PyDepSrc {
    /// The base class expression `arg` of the class qualified by the second field.
    Base(int, Seq<char>),
    /// An import of the name in the second field by the statement `st`.
    Import(int, Seq<char>),
}

/// What a walk yields: symbol sources and dependency sources, in order.
pub struct PyOut {
    pub syms: Seq<PySymSrc>,
    pub deps: Seq<PyDepSrc>,
}

pub open spec fn py_out_none() -> PyOut {
    PyOut { syms: seq![], deps: seq![] }
}

pub open spec fn py_out_cat(a: PyOut, b: PyOut) -> PyOut {
    PyOut { syms: a.syms + b.syms, deps: a.deps + b.deps }
}

/// The qualified name of the class `name` nested in `outer`, or of the module.
pub open spec fn class_qn(module: Seq<char>, outer: Option<(Seq<char>, Seq<char>)>, name: Seq<char>) -> Seq<char> {
    match outer {
        Some((_, oqn)) => oqn + "."@ + name,
        None => qualify_spec(module, name),
    }
}

/// The entries of the superclass list of the class `n`.
pub open spec fn superclass_entries(t: SyntaxTree, n: int) -> Seq<usize> {
    match child_in_field(t, n, "superclasses"@) {
        Some(s) => t.children(s as int),
        None => seq![],
    }
}

/// The `Implements` dependencies of the base entries `cs` of the class `qn`.
pub open spec fn base_deps_in(t: SyntaxTree, cs: Seq<usize>, qn: Seq<char>) -> Seq<PyDepSrc>
    decreases cs.len(),
{
    if cs.len() == 0 {
        seq![]
    } else {
        let c = cs.last() as int;
        base_deps_in(t, cs.drop_last(), qn) + if is_named(t, c) && t.kind(c) != "comment"@ && base_name_spec(t, c) is Some {
            seq![PyDepSrc::Base(c, qn)]
        } else {
            seq![]
        }
    }
}

/// `class Name[type params](bases)`, the bases part only with bases.
pub open spec fn class_signature(t: SyntaxTree, n: int) -> Seq<char> {
    let bases = sig_parts(t, superclass_entries(t, n));
    "class "@ + py_name_spec(t, n) + or_empty(squashed_field_spec(t, n, "type_parameters"@)) + if bases.len() > 0 {
        "("@ + join(bases, ", "@) + ")"@
    } else {
        seq![]
    }
}

/// The statements of the body of the definition `n`.
pub open spec fn body_statements(t: SyntaxTree, n: int) -> Seq<usize> {
    match child_in_field(t, n, "body"@) {
        Some(b) => statements_spec(t, b as int),
        None => seq![],
    }
}

/// The definition a class-body or module statement `st` holds, if any.
pub open spec fn definition_of(t: SyntaxTree, st: int) -> Option<usize> {
    if t.kind(st) == "decorated_definition"@ {
        child_in_field(t, st, "definition"@)
    } else if t.kind(st) == "function_definition"@ || t.kind(st) == "class_definition"@ {
        Some(st as usize)
    } else {
        None
    }
}

/// The decorators of the statement `st`.
pub open spec fn decorators_of(t: SyntaxTree, st: int) -> Seq<Seq<char>> {
    if t.kind(st) == "decorated_definition"@ {
        decorators_in(t, t.children(st))
    } else {
        seq![]
    }
}

/// The field candidates of one class-body statement.
pub open spec fn stmt_cands(t: SyntaxTree, st: int) -> Seq<(Seq<char>, Seq<char>)> {
    if t.kind(st) == "expression_statement"@ {
        match first_named_of_kind(t, t.children(st), "assignment"@) {
            Some(a) => class_field_cand(t, a as int),
            None => seq![],
        }
    } else {
        match definition_of(t, st) {
            Some(d) => if t.kind(d as int) == "function_definition"@ && py_name_spec(t, d as int) == "__init__"@ {
                match child_in_field(t, d as int, "body"@) {
                    Some(b) => init_cands(t, b as int),
                    None => seq![],
                }
            } else {
                seq![]
            },
            None => seq![],
        }
    }
}

/// The field candidates of the class-body statements `sts`, in order.
pub open spec fn class_cands(t: SyntaxTree, sts: Seq<usize>) -> Seq<(Seq<char>, Seq<char>)>
    decreases sts.len(),
{
    if sts.len() == 0 {
        seq![]
    } else {
        class_cands(t, sts.drop_last()) + stmt_cands(t, sts.last() as int)
    }
}

/// The fields of the class `n`.
pub open spec fn class_fields(t: SyntaxTree, n: int) -> Seq<(Seq<char>, Seq<char>, Visibility)> {
    add_fields(seq![], class_cands(t, body_statements(t, n)))
}

/// What the class definition `n` with the decorators `decos` yields as its
/// own symbol.
pub open spec fn is_py_class_symbol(
    s: Symbol,
    t: SyntaxTree,
    n: int,
    path: Seq<char>,
    module: Seq<char>,
    decos: Seq<Seq<char>>,
    outer: Option<(Seq<char>, Seq<char>)>,
) -> bool {
    let name = py_name_spec(t, n);
    &&& s.name@ == name
    &&& s.qualified_name@ == class_qn(module, outer, name)
    &&& s.kind@ == "class"@
    &&& is_loc_of(s.loc, t, n, path)
    &&& s.visibility == visibility_spec(name)
    &&& s.signature matches Some(sig) && sig@ == class_signature(t, n)
    &&& match outer {
        Some((o, _)) => s.parent matches Some(p) && p@ == o,
        None => s.parent is None,
    }
    &&& views(s.attributes@) == decos
    &&& fields_view(s.fields@) == class_fields(t, n)
    &&& s.params@.len() == 0
    &&& s.return_type is None
}

/// Whether `name = <subscript>` without an annotation is an implicit alias.
pub open spec fn implicit_alias_spec(t: SyntaxTree, name: Seq<char>, a: int) -> bool {
    &&& child_in_field(t, a, "type"@) is None
    &&& is_pascal(name)
    &&& match child_in_field(t, a, "right"@) {
        Some(r) => t.kind(r as int) == "subscript"@,
        None => false,
    }
}

/// The last dotted segment of the function a call on the right of `a` names.
pub open spec fn called_name(t: SyntaxTree, a: int) -> Option<Seq<char>> {
    match child_in_field(t, a, "right"@) {
        Some(r) => if t.kind(r as int) == "call"@ {
            match child_in_field(t, r as int, "function"@) {
                Some(f) => Some(last_dotted(t.text(f as int))),
                None => None,
            }
        } else {
            None
        },
        None => None,
    }
}

/// The kind of symbol a module-level assignment `a` makes, if any.
pub open spec fn assignment_kind(t: SyntaxTree, a: int) -> Option<Seq<char>> {
    match child_in_field(t, a, "left"@) {
        None => None,
        Some(l) => if t.kind(l as int) != "identifier"@ {
            None
        } else {
            let name = t.text(l as int);
            let is_alias = match child_in_field(t, a, "type"@) {
                Some(x) => trim(t.text(x as int)) == "TypeAlias"@ || ends_with(trim(t.text(x as int)), ".TypeAlias"@),
                None => false,
            };
            let called = called_name(t, a);
            let is_type_var = called matches Some(c) && (c == "TypeVar"@ || c == "ParamSpec"@ || c == "TypeVarTuple"@);
            let is_new_type = called matches Some(c) && c == "NewType"@;
            if is_type_var {
                None
            } else if is_alias || is_new_type || implicit_alias_spec(t, name, a) {
                Some("type"@)
            } else if is_constant_name_spec(name) {
                Some("const"@)
            } else {
                None
            }
        },
    }
}

/// A module-level symbol named `name` of kind `k` at node `n` with the
/// signature `sig`.
pub open spec fn is_py_plain_symbol(
    s: Symbol,
    t: SyntaxTree,
    n: int,
    path: Seq<char>,
    module: Seq<char>,
    name: Seq<char>,
    k: Seq<char>,
    sig: Seq<char>,
) -> bool {
    &&& s.name@ == name
    &&& s.qualified_name@ == qualify_spec(module, name)
    &&& s.kind@ == k
    &&& is_loc_of(s.loc, t, n, path)
    &&& s.visibility == visibility_spec(name)
    &&& s.signature matches Some(x) && x@ == sig
    &&& s.parent is None
    &&& s.attributes@.len() == 0
    &&& s.fields@.len() == 0
    &&& s.params@.len() == 0
    &&& s.return_type is None
}

/// The name a `type X = ...` statement declares, if any.
pub open spec fn alias_name(t: SyntaxTree, st: int) -> Option<Seq<char>> {
    match child_in_field(t, st, "left"@) {
        Some(l) => match first_identifier_spec(t, l as int) {
            Some(i) => Some(t.text(i as int)),
            None => None,
        },
        None => None,
    }
}

/// Is `s` the symbol that `src` yields?
pub open spec fn py_sym_from(s: Symbol, src: PySymSrc, t: SyntaxTree, path: Seq<char>, module: Seq<char>) -> bool {
    match src {
        PySymSrc::Func(n, decos, class) => is_py_function_symbol(s, t, n, path, module, decos, class),
        PySymSrc::Class(n, decos, outer) => is_py_class_symbol(s, t, n, path, module, decos, outer),
        PySymSrc::Assign(a) => match (child_in_field(t, a, "left"@), assignment_kind(t, a)) {
            (Some(l), Some(k)) => is_py_plain_symbol(
                s,
                t,
                a,
                path,
                module,
                t.text(l as int),
                k,
                truncate_spec(squash_spec(t.text(a)), 120),
            ),
            _ => false,
        },
        PySymSrc::Alias(st) => match alias_name(t, st) {
            Some(name) => is_py_plain_symbol(s, t, st, path, module, name, "type"@, truncate_spec(squash_spec(t.text(st)), 120)),
            None => false,
        },
    }
}

/// Is `d` the dependency that `src` yields?
pub open spec fn py_dep_from(d: Dependency, src: PyDepSrc, t: SyntaxTree, path: Seq<char>, module: Seq<char>) -> bool {
    match src {
        PyDepSrc::Base(arg, from) => {
            &&& d.from_qualified@ == from
            &&& base_name_spec(t, arg) == Some(d.to_name@)
            &&& d.kind == DepKind::Implements
            &&& is_loc_of(d.loc, t, arg, path)
        },
        PyDepSrc::Import(st, to) => {
            &&& d.from_qualified@ == import_from_spec(module)
            &&& d.to_name@ == to
            &&& d.kind == DepKind::Import
            &&& is_loc_of(d.loc, t, st, path)
        },
    }
}

/// What the class definition `n` with the decorators `decos` yields: its base
/// classes, itself, then what its body yields.
pub open spec fn class_out(
    t: SyntaxTree,
    n: int,
    module: Seq<char>,
    decos: Seq<Seq<char>>,
    outer: Option<(Seq<char>, Seq<char>)>,
) -> PyOut
    decreases t.len() - n, 2int, 0int,
{
    if !(0 <= n < t.len()) {
        py_out_none()
    } else {
        match child_in_field(t, n, "name"@) {
            None => py_out_none(),
            Some(_) => {
                let name = py_name_spec(t, n);
                let qn = class_qn(module, outer, name);
                let me = PyOut {
                    syms: seq![PySymSrc::Class(n, decos, outer)],
                    deps: base_deps_in(t, superclass_entries(t, n), qn),
                };
                py_out_cat(me, class_body_out(t, n, body_statements(t, n), module, name, qn))
            },
        }
    }
}

/// What the body statements `sts` of the class `n` yield.
pub open spec fn class_body_out(
    t: SyntaxTree,
    n: int,
    sts: Seq<usize>,
    module: Seq<char>,
    cname: Seq<char>,
    cqn: Seq<char>,
) -> PyOut
    decreases t.len() - n, 1int, sts.len(),
{
    if sts.len() == 0 || !(0 <= n < t.len()) {
        py_out_none()
    } else {
        let st = sts.last() as int;
        py_out_cat(
            class_body_out(t, n, sts.drop_last(), module, cname, cqn),
            if n < st < t.len() {
                class_stmt_out(t, st, module, cname, cqn)
            } else {
                py_out_none()
            },
        )
    }
}

/// What one statement of the body of the class (`cname`, `cqn`) yields: a
/// method or a nested class.
pub open spec fn class_stmt_out(t: SyntaxTree, st: int, module: Seq<char>, cname: Seq<char>, cqn: Seq<char>) -> PyOut
    decreases t.len() - st, 3int, 0int,
{
    if !(0 <= st < t.len()) {
        py_out_none()
    } else {
        match definition_of(t, st) {
            Some(d) => if st <= d < t.len() {
                if t.kind(d as int) == "function_definition"@ {
                    PyOut {
                        syms: seq![PySymSrc::Func(d as int, decorators_of(t, st), Some((cname, cqn)))],
                        deps: seq![],
                    }
                } else if t.kind(d as int) == "class_definition"@ {
                    class_out(t, d as int, module, decorators_of(t, st), Some((cname, cqn)))
                } else {
                    py_out_none()
                }
            } else {
                py_out_none()
            },
            None => py_out_none(),
        }
    }
}

/// The imported names of the entries `cs` of an import statement.
pub open spec fn imported_names_in(t: SyntaxTree, cs: Seq<usize>) -> Seq<Seq<char>>
    decreases cs.len(),
{
    if cs.len() == 0 {
        seq![]
    } else {
        let c = cs.last() as int;
        imported_names_in(t, cs.drop_last()) + if t.field(c) == Some("name"@) {
            if t.kind(c) == "aliased_import"@ {
                match child_in_field(t, c, "name"@) {
                    Some(x) => seq![t.text(x as int)],
                    None => seq![],
                }
            } else {
                seq![t.text(c)]
            }
        } else {
            seq![]
        }
    }
}

/// One import by the statement `st` per name of `tos`.
pub open spec fn import_srcs(st: int, tos: Seq<Seq<char>>) -> Seq<PyDepSrc> {
    Seq::new(tos.len(), |i: int| PyDepSrc::Import(st, tos[i]))
}

/// The module a `from ... import` statement imports from.
pub open spec fn from_module(t: SyntaxTree, m: int, package: Seq<Seq<char>>) -> Seq<char> {
    if t.kind(m) == "relative_import"@ {
        resolve_relative_spec(t.text(m), package)
    } else {
        t.text(m)
    }
}

/// What a `from ... import` statement imports.
pub open spec fn from_imports(t: SyntaxTree, st: int, package: Seq<Seq<char>>) -> Seq<Seq<char>> {
    match child_in_field(t, st, "module_name"@) {
        None => seq![],
        Some(m) => {
            let from = from_module(t, m as int, package);
            let names = imported_names_in(t, t.children(st));
            Seq::new(names.len(), |i: int| join_import_spec(from, names[i])) + if names.len() == 0
                && first_named_of_kind(t, t.children(st), "wildcard_import"@) is Some {
                seq![join_import_spec(from, "*"@)]
            } else {
                seq![]
            }
        },
    }
}

/// What one module-level statement yields.
pub open spec fn module_stmt_out(t: SyntaxTree, st: int, module: Seq<char>, package: Seq<Seq<char>>) -> PyOut {
    let k = t.kind(st);
    if k == "import_statement"@ {
        PyOut { syms: seq![], deps: import_srcs(st, imported_names_in(t, t.children(st))) }
    } else if k == "import_from_statement"@ {
        PyOut { syms: seq![], deps: import_srcs(st, from_imports(t, st, package)) }
    } else if k == "function_definition"@ {
        PyOut { syms: seq![PySymSrc::Func(st, seq![], None)], deps: seq![] }
    } else if k == "class_definition"@ {
        class_out(t, st, module, seq![], None)
    } else if k == "decorated_definition"@ {
        match child_in_field(t, st, "definition"@) {
            Some(d) => if t.kind(d as int) == "function_definition"@ {
                PyOut { syms: seq![PySymSrc::Func(d as int, decorators_of(t, st), None)], deps: seq![] }
            } else if t.kind(d as int) == "class_definition"@ {
                class_out(t, d as int, module, decorators_of(t, st), None)
            } else {
                py_out_none()
            },
            None => py_out_none(),
        }
    } else if k == "type_alias_statement"@ {
        if alias_name(t, st) is Some {
            PyOut { syms: seq![PySymSrc::Alias(st)], deps: seq![] }
        } else {
            py_out_none()
        }
    } else if k == "expression_statement"@ {
        match first_named_of_kind(t, t.children(st), "assignment"@) {
            Some(a) => if assignment_kind(t, a as int) is Some {
                PyOut { syms: seq![PySymSrc::Assign(a as int)], deps: seq![] }
            } else {
                py_out_none()
            },
            None => py_out_none(),
        }
    } else {
        py_out_none()
    }
}

/// What the module-level statements `sts` yield, in order.
pub open spec fn module_out(t: SyntaxTree, sts: Seq<usize>, module: Seq<char>, package: Seq<Seq<char>>) -> PyOut
    decreases sts.len(),
{
    if sts.len() == 0 {
        py_out_none()
    } else {
        py_out_cat(module_out(t, sts.drop_last(), module, package), module_stmt_out(t, sts.last() as int, module, package))
    }
}

/// `new` is `old` followed by one symbol and one dependency per source of
/// `out`, in order, each what its source yields.
pub open spec fn py_extends(old: Ir, new: Ir, out: PyOut, t: SyntaxTree, path: Seq<char>, module: Seq<char>) -> bool {
    &&& new.symbols@.len() == old.symbols@.len() + out.syms.len()
    &&& new.dependencies@.len() == old.dependencies@.len() + out.deps.len()
    &&& forall|i: int| 0 <= i < old.symbols@.len() ==> #[trigger] new.symbols@[i] == old.symbols@[i]
    &&& forall|i: int| 0 <= i < old.dependencies@.len() ==> #[trigger] new.dependencies@[i] == old.dependencies@[i]
    &&& forall|k: int| 0 <= k < out.syms.len() ==> py_sym_from(
        #[trigger] new.symbols@[old.symbols@.len() + k],
        out.syms[k],
        t,
        path,
        module,
    )
    &&& forall|k: int| 0 <= k < out.deps.len() ==> py_dep_from(
        #[trigger] new.dependencies@[old.dependencies@.len() + k],
        out.deps[k],
        t,
        path,
        module,
    )
}

/// The IR of the file `path` is exactly what its module-level statements
/// yield, in order.
pub open spec fn py_ir_exact(ir: Ir, t: SyntaxTree, path: Seq<char>) -> bool {
    let module = py_module_path_spec(path);
    let out = module_out(t, statements_spec(t, 0), module, package_path_spec(path, module));
    &&& ir.symbols@.len() == out.syms.len()
    &&& ir.dependencies@.len() == out.deps.len()
    &&& forall|k: int| 0 <= k < out.syms.len() ==> py_sym_from(#[trigger] ir.symbols@[k], out.syms[k], t, path, module)
    &&& forall|k: int| 0 <= k < out.deps.len() ==> py_dep_from(#[trigger] ir.dependencies@[k], out.deps[k], t, path, module)
}

pub proof fn lemma_py_extends_trans(
    a: Ir,
    b: Ir,
    c: Ir,
    o1: PyOut,
    o2: PyOut,
    t: SyntaxTree,
    path: Seq<char>,
    module: Seq<char>,
)
    requires
        py_extends(a, b, o1, t, path, module),
        py_extends(b, c, o2, t, path, module),
    ensures
        py_extends(a, c, py_out_cat(o1, o2), t, path, module),
{
    let al = a.symbols@.len() as int;
    let ad = a.dependencies@.len() as int;
    let o = py_out_cat(o1, o2);
    assert forall|i: int| 0 <= i < a.symbols@.len() implies #[trigger] c.symbols@[i] == a.symbols@[i] by {
        assert(c.symbols@[i] == b.symbols@[i]);
    }
    assert forall|i: int| 0 <= i < a.dependencies@.len() implies #[trigger] c.dependencies@[i] == a.dependencies@[i] by {
        assert(c.dependencies@[i] == b.dependencies@[i]);
    }
    assert forall|k: int| 0 <= k < o.syms.len() implies py_sym_from(#[trigger] c.symbols@[al + k], o.syms[k], t, path, module) by {
        if k < o1.syms.len() {
            assert(c.symbols@[al + k] == b.symbols@[al + k]);
        } else {
            let j = k - o1.syms.len();
            assert(b.symbols@.len() + j == al + k);
            assert(py_sym_from(c.symbols@[b.symbols@.len() + j], o2.syms[j], t, path, module));
        }
    }
    assert forall|k: int| 0 <= k < o.deps.len() implies py_dep_from(#[trigger] c.dependencies@[ad + k], o.deps[k], t, path, module) by {
        if k < o1.deps.len() {
            assert(c.dependencies@[ad + k] == b.dependencies@[ad + k]);
        } else {
            let j = k - o1.deps.len();
            assert(b.dependencies@.len() + j == ad + k);
            assert(py_dep_from(c.dependencies@[b.dependencies@.len() + j], o2.deps[j], t, path, module));
        }
    }
}

pub proof fn lemma_py_extends_refl(a: Ir, t: SyntaxTree, path: Seq<char>, module: Seq<char>)
    ensures
        py_extends(a, a, py_out_none(), t, path, module),
{
}

/// One pushed symbol extends the IR by its source.
proof fn lemma_pushed_py_symbol(a: Ir, b: Ir, s: Symbol, src: PySymSrc, t: SyntaxTree, path: Seq<char>, module: Seq<char>)
    requires
        b.symbols@ == a.symbols@.push(s),
        b.dependencies@ == a.dependencies@,
        py_sym_from(s, src, t, path, module),
    ensures
        py_extends(a, b, PyOut { syms: seq![src], deps: seq![] }, t, path, module),
{
    assert(b.symbols@[a.symbols@.len() + 0int] == s);
}

/// One pushed dependency extends the IR by its source.
proof fn lemma_pushed_py_dep(a: Ir, b: Ir, d: Dependency, src: PyDepSrc, t: SyntaxTree, path: Seq<char>, module: Seq<char>)
    requires
        b.dependencies@ == a.dependencies@.push(d),
        b.symbols@ == a.symbols@,
        py_dep_from(d, src, t, path, module),
    ensures
        py_extends(a, b, PyOut { syms: seq![], deps: seq![src] }, t, path, module),
{
    assert(b.dependencies@[a.dependencies@.len() + 0int] == d);
}

// ---------------------------------------------------------------------------
// Classes
// ---------------------------------------------------------------------------

/// The class symbol pushed before the body, its fields set once the body is
/// done, completes the class's output.
proof fn lemma_class_assembled(
    o: Ir,
    before_push: Ir,
    after: Ir,
    end: Ir,
    fin: Ir,
    src: PySymSrc,
    me_deps: Seq<PyDepSrc>,
    body: PyOut,
    t: SyntaxTree,
    path: Seq<char>,
    module: Seq<char>,
)
    requires
        py_extends(o, before_push, PyOut { syms: seq![], deps: me_deps }, t, path, module),
        after.symbols@.len() == before_push.symbols@.len() + 1,
        forall|i: int| 0 <= i < before_push.symbols@.len() ==> #[trigger] after.symbols@[i] == before_push.symbols@[i],
        after.dependencies@ == before_push.dependencies@,
        py_extends(after, end, body, t, path, module),
        fin.dependencies@ == end.dependencies@,
        fin.symbols@.len() == end.symbols@.len(),
        forall|i: int| 0 <= i < fin.symbols@.len() && i != o.symbols@.len() ==> #[trigger] fin.symbols@[i] == end.symbols@[i],
        py_sym_from(fin.symbols@[o.symbols@.len() as int], src, t, path, module),
    ensures
        py_extends(o, fin, py_out_cat(PyOut { syms: seq![src], deps: me_deps }, body), t, path, module),
{
    let ol = o.symbols@.len() as int;
    let od = o.dependencies@.len() as int;
    let out = py_out_cat(PyOut { syms: seq![src], deps: me_deps }, body);
    assert forall|i: int| 0 <= i < o.symbols@.len() implies #[trigger] fin.symbols@[i] == o.symbols@[i] by {
        assert(fin.symbols@[i] == end.symbols@[i]);
        assert(end.symbols@[i] == after.symbols@[i]);
        assert(after.symbols@[i] == before_push.symbols@[i]);
    }
    assert forall|i: int| 0 <= i < o.dependencies@.len() implies #[trigger] fin.dependencies@[i] == o.dependencies@[i] by {
        assert(end.dependencies@[i] == after.dependencies@[i]);
        assert(before_push.dependencies@[i] == o.dependencies@[i]);
    }
    assert forall|k: int| 0 <= k < out.syms.len() implies py_sym_from(#[trigger] fin.symbols@[ol + k], out.syms[k], t, path, module) by {
        if k == 0 {
            assert(out.syms[0] == src);
        } else {
            let j = k - 1;
            assert(out.syms[k] == body.syms[j]);
            assert(after.symbols@.len() + j == ol + k);
            assert(fin.symbols@[ol + k] == end.symbols@[ol + k]);
            assert(py_sym_from(end.symbols@[after.symbols@.len() + j], body.syms[j], t, path, module));
        }
    }
    assert forall|k: int| 0 <= k < out.deps.len() implies py_dep_from(#[trigger] fin.dependencies@[od + k], out.deps[k], t, path, module) by {
        if k < me_deps.len() {
            assert(fin.dependencies@[od + k] == before_push.dependencies@[od + k]);
        } else {
            let j = k - me_deps.len();
            assert(after.dependencies@.len() + j == od + k);
            assert(py_dep_from(end.dependencies@[after.dependencies@.len() + j], body.deps[j], t, path, module));
        }
    }
}

/// A class: its base classes (as dependencies), its own symbol, then its
/// methods and nested classes; its fields are filled in last.
fn class(
    t: &SyntaxTree,
    n: usize,
    path: &str,
    module: &str,
    decos: &Vec<String>,
    outer: Option<(&str, &str)>,
    ir: &mut Ir,
)
    requires
        t.wf(),
        n < t.len(),
        outer matches Some((_, oqn)) ==> starts_with(oqn@, module@),
    ensures
        py_grows(*old(ir), *final(ir), module@, path@),
        py_extends(*old(ir), *final(ir), class_out(*t, n as int, module@, views(decos@), class_view(outer)), *t, path@, module@),
    decreases t.len() - n, 1int,
{
    let ghost dv = views(decos@);
    let ghost ov = class_view(outer);
    let name = match child_by_field_name(t, n, "name") {
        Some(c) => node_text(t, c),
        None => {
            proof {
                lemma_py_extends_refl(*ir, *t, path@, module@);
            }
            return;
        },
    };
    assert(name@ == py_name_spec(*t, n as int));
    let qn = match outer {
        Some((_, oqn)) => {
            let mut q = owned(oqn);
            push_str(&mut q, ".");
            push_str(&mut q, name.as_str());
            proof {
                lemma_dotted_extends(oqn@, name@, module@);
            }
            q
        },
        None => {
            proof {
                assert(module@.subrange(0, module@.len() as int) =~= module@);
                lemma_dotted_extends(module@, name@, module@);
            }
            qualify(module, name.as_str())
        },
    };
    assert(qn@ == class_qn(module@, ov, name@));
    let ghost entries = superclass_entries(*t, n as int);
    let mut bases_text: Vec<String> = Vec::new();
    proof {
        lemma_py_extends_refl(*ir, *t, path@, module@);
        assert(entries.take(0) =~= Seq::<usize>::empty());
        assert(views(bases_text@) =~= Seq::<Seq<char>>::empty());
    }
    match child_by_field_name(t, n, "superclasses") {
        Some(supers) => {
            let cs = &t.nodes[supers].children;
            let ghost all = t.children(supers as int);
            proof {
                lemma_children_after(*t, supers as int);
            }
            let mut i: usize = 0;
            while i < cs.len()
                invariant
                    i <= cs.len(),
                    t.wf(),
                    all == cs@,
                    all == entries,
                    starts_with(qn@, module@),
                    forall|j: int| 0 <= j < all.len() ==> supers < #[trigger] all[j] < t.len(),
                    py_grows(*old(ir), *ir, module@, path@),
                    py_extends(*old(ir), *ir, PyOut { syms: seq![], deps: base_deps_in(*t, all.take(i as int), qn@) }, *t, path@, module@),
                    views(bases_text@) == sig_parts(*t, all.take(i as int)),
                decreases cs.len() - i,
            {
                let arg = cs[i];
                assert(all[i as int] == arg);
                assert(all.take(i + 1).drop_last() =~= all.take(i as int));
                assert(all.take(i + 1).last() == arg);
                let ghost before = *ir;
                let ghost prev = base_deps_in(*t, all.take(i as int), qn@);
                if t.nodes[arg].named && !kind_is(t, arg, "comment") {
                    bases_text.push(squash(t.nodes[arg].text.as_str()));
                    match base_name(t, arg) {
                        Some(base) => {
                            let d = Dependency {
                                from_qualified: qn.clone(),
                                to_name: base,
                                kind: DepKind::Implements,
                                loc: loc_of(t, arg, path),
                            };
                            let ghost dd = d;
                            push_py_dep(ir, d, Ghost(module@), Ghost(path@));
                            proof {
                                lemma_py_grows_trans(*old(ir), before, *ir, module@, path@);
                                lemma_pushed_py_dep(before, *ir, dd, PyDepSrc::Base(arg as int, qn@), *t, path@, module@);
                                lemma_py_extends_trans(
                                    *old(ir),
                                    before,
                                    *ir,
                                    PyOut { syms: seq![], deps: prev },
                                    PyOut { syms: seq![], deps: seq![PyDepSrc::Base(arg as int, qn@)] },
                                    *t,
                                    path@,
                                    module@,
                                );
                                assert(Seq::<PySymSrc>::empty() + Seq::<PySymSrc>::empty() =~= Seq::<PySymSrc>::empty());
                            }
                        },
                        None => {
                            assert(prev + Seq::<PyDepSrc>::empty() =~= prev);
                        },
                    }
                } else {
                    assert(prev + Seq::<PyDepSrc>::empty() =~= prev);
                }
                assert(views(bases_text@) =~= sig_parts(*t, all.take(i + 1)));
                i += 1;
            }
            assert(all.take(cs.len() as int) =~= all);
        },
        None => {},
    }
    let ghost base_deps = base_deps_in(*t, entries, qn@);
    assert(views(bases_text@) == sig_parts(*t, entries));
    let type_params = match squashed_field(t, n, "type_parameters") {
        Some(x) => x,
        None => String::new(),
    };
    let mut signature = owned("class ");
    push_str(&mut signature, name.as_str());
    push_str(&mut signature, type_params.as_str());
    if bases_text.len() > 0 {
        push_str(&mut signature, "(");
        let joined = join_strings(&bases_text, ", ");
        push_str(&mut signature, joined.as_str());
        push_str(&mut signature, ")");
    }
    assert(signature@ =~= class_signature(*t, n as int));
    let mut attributes: Vec<String> = Vec::new();
    let mut k: usize = 0;
    while k < decos.len()
        invariant
            k <= decos.len(),
            dv == views(decos@),
            views(attributes@) == dv.take(k as int),
        decreases decos.len() - k,
    {
        let ghost before = views(attributes@);
        let dk = decos[k].clone();
        assert(dk@ == dv[k as int]);
        attributes.push(dk);
        assert(views(attributes@) =~= before.push(dv[k as int]));
        assert(dv.take(k + 1) =~= dv.take(k as int).push(dv[k as int]));
        k += 1;
    }
    assert(dv.take(decos.len() as int) =~= dv);
    let sym = Symbol {
        visibility: visibility(name.as_str()),
        name: name.clone(),
        qualified_name: qn.clone(),
        kind: owned("class"),
        loc: loc_of(t, n, path),
        signature: Some(signature),
        parent: match outer {
            Some((o, _)) => Some(owned(o)),
            None => None,
        },
        attributes,
        fields: Vec::new(),
        params: Vec::new(),
        return_type: None,
    };
    let idx = ir.symbols.len();
    let ghost before_push = *ir;
    push_py_symbol(ir, sym, Ghost(module@), Ghost(path@));
    proof {
        lemma_py_grows_trans(*old(ir), before_push, *ir, module@, path@);
        lemma_py_extends_refl(*ir, *t, path@, module@);
    }
    let ghost mid = *ir;
    let mut fields: Vec<Field> = Vec::new();
    let ghost sts = body_statements(*t, n as int);
    assert(fields_view(fields@) =~= add_fields(seq![], class_cands(*t, sts.take(0))));
    assert(class_body_out(*t, n as int, sts.take(0), module@, name@, qn@) == py_out_none());
    match child_by_field_name(t, n, "body") {
        Some(body) => {
            let stmts = statements(t, body);
            assert(stmts@ == sts);
            let mut i: usize = 0;
            while i < stmts.len()
                invariant
                    i <= stmts.len(),
                    t.wf(),
                    n < body < t.len(),
                    stmts@ == sts,
                    starts_with(qn@, module@),
                    forall|q: int| 0 <= q < stmts@.len() ==> body < #[trigger] stmts@[q] < t.len(),
                    py_grows(mid, *ir, module@, path@),
                    py_extends(mid, *ir, class_body_out(*t, n as int, sts.take(i as int), module@, name@, qn@), *t, path@, module@),
                    fields_view(fields@) == add_fields(seq![], class_cands(*t, sts.take(i as int))),
                decreases stmts.len() - i,
            {
                let st = stmts[i];
                assert(stmts@[i as int] == st);
                assert(sts.take(i + 1).drop_last() =~= sts.take(i as int));
                assert(sts.take(i + 1).last() == st);
                let ghost before = *ir;
                let ghost fb = fields_view(fields@);
                class_statement(t, st, path, module, name.as_str(), qn.as_str(), &mut fields, ir);
                proof {
                    lemma_py_grows_trans(mid, before, *ir, module@, path@);
                    lemma_py_extends_trans(
                        mid,
                        before,
                        *ir,
                        class_body_out(*t, n as int, sts.take(i as int), module@, name@, qn@),
                        class_stmt_out(*t, st as int, module@, name@, qn@),
                        *t,
                        path@,
                        module@,
                    );
                    lemma_add_fields_cat(seq![], class_cands(*t, sts.take(i as int)), stmt_cands(*t, st as int));
                }
                i += 1;
            }
            assert(sts.take(stmts.len() as int) =~= sts);
        },
        None => {
            assert(sts =~= sts.take(0));
        },
    }
    proof {
        lemma_py_grows_trans(*old(ir), mid, *ir, module@, path@);
    }
    let ghost before_set = *ir;
    let ghost fv = fields_view(fields@);
    ir.symbols[idx].fields = fields;
    proof {
        assert forall|i: int| old(ir).symbols@.len() <= i < ir.symbols@.len() implies py_symbol_ok(
            #[trigger] ir.symbols@[i],
            module@,
            path@,
        ) by {
            assert(py_symbol_ok(before_set.symbols@[i], module@, path@));
        }
        assert forall|i: int| 0 <= i < old(ir).symbols@.len() implies #[trigger] ir.symbols@[i] == old(ir).symbols@[i] by {
            assert(before_set.symbols@[i] == old(ir).symbols@[i]);
        }
        assert(before_set.symbols@[idx as int] == mid.symbols@[idx as int]);
        assert(py_sym_from(ir.symbols@[idx as int], PySymSrc::Class(n as int, dv, ov), *t, path@, module@));
        lemma_class_assembled(
            *old(ir),
            before_push,
            mid,
            before_set,
            *ir,
            PySymSrc::Class(n as int, dv, ov),
            base_deps,
            class_body_out(*t, n as int, sts, module@, name@, qn@),
            *t,
            path@,
            module@,
        );
    }
}

/// The statement kinds a class body tells apart are different words.
proof fn lemma_py_kinds_distinct()
    ensures
        "expression_statement"@ != "decorated_definition"@,
        "expression_statement"@ != "function_definition"@,
        "expression_statement"@ != "class_definition"@,
        "decorated_definition"@ != "function_definition"@,
        "decorated_definition"@ != "class_definition"@,
        "function_definition"@ != "class_definition"@,
{
    reveal_strlit("expression_statement");
    reveal_strlit("decorated_definition");
    reveal_strlit("function_definition");
    reveal_strlit("class_definition");
    assert("expression_statement"@[0] != "decorated_definition"@[0]);
    assert("expression_statement"@[0] != "function_definition"@[0]);
    assert("expression_statement"@[0] != "class_definition"@[0]);
    assert("decorated_definition"@[0] != "function_definition"@[0]);
    assert("decorated_definition"@[0] != "class_definition"@[0]);
    assert("function_definition"@[0] != "class_definition"@[0]);
}

/// One statement of a class body: a method (with the fields its
/// `__init__` assigns), a nested class, or a class-level field.
fn class_statement(
    t: &SyntaxTree,
    st: usize,
    path: &str,
    module: &str,
    class_name: &str,
    class_qn: &str,
    fields: &mut Vec<Field>,
    ir: &mut Ir,
)
    requires
        t.wf(),
        st < t.len(),
        starts_with(class_qn@, module@),
    ensures
        py_grows(*old(ir), *final(ir), module@, path@),
        py_extends(*old(ir), *final(ir), class_stmt_out(*t, st as int, module@, class_name@, class_qn@), *t, path@, module@),
        fields_view(final(fields)@) == add_fields(fields_view(old(fields)@), stmt_cands(*t, st as int)),
    decreases t.len() - st, 2int,
{
    let ghost fs = fields_view(fields@);
    proof {
        lemma_py_kinds_distinct();
        lemma_py_extends_refl(*ir, *t, path@, module@);
        assert(add_fields(fs, seq![]) == fs);
    }
    let (def, decos) = if kind_is(t, st, "decorated_definition") {
        match child_by_field_name(t, st, "definition") {
            Some(d) => (d, decorators(t, st)),
            None => {
                return;
            },
        }
    } else if kind_is(t, st, "function_definition") || kind_is(t, st, "class_definition") {
        let v: Vec<String> = Vec::new();
        assert(views(v@) =~= Seq::<Seq<char>>::empty());
        (st, v)
    } else if kind_is(t, st, "expression_statement") {
        match first_named_child_of_kind(t, st, "assignment") {
            Some(a) => class_field(t, a, fields),
            None => {},
        }
        return;
    } else {
        return;
    };
    assert(definition_of(*t, st as int) == Some(def));
    assert(views(decos@) == decorators_of(*t, st as int));
    if kind_is(t, def, "function_definition") {
        let sym = function(t, def, path, module, &decos, Some((class_name, class_qn)));
        if str_eq(sym.name.as_str(), "__init__") {
            match child_by_field_name(t, def, "body") {
                Some(body) => init_fields(t, body, fields),
                None => {},
            }
        }
        proof {
            lemma_dotted_extends(class_qn@, sym.name@, module@);
        }
        let ghost sv = sym;
        push_py_symbol(ir, sym, Ghost(module@), Ghost(path@));
        proof {
            lemma_pushed_py_symbol(
                *old(ir),
                *ir,
                sv,
                PySymSrc::Func(def as int, views(decos@), Some((class_name@, class_qn@))),
                *t,
                path@,
                module@,
            );
        }
    } else if kind_is(t, def, "class_definition") {
        class(t, def, path, module, &decos, Some((class_name, class_qn)), ir);
    }
}

// ---------------------------------------------------------------------------
// Module-level assignments and type aliases
// ---------------------------------------------------------------------------

/// The part of `s` after its last `.` (all of it without one).
pub open spec fn last_dotted(s: Seq<char>) -> Seq<char> {
    match rfind_char(s, '.') {
        Some(i) => s.skip(i + 1),
        None => s,
    }
}

fn last_dotted_exec(s: &str) -> (r: String)
    ensures
        r@ == last_dotted(s@),
{
    let v = chars_of(s);
    match rfind_char_exec(&v, '.') {
        Some(i) => {
            let r = string_of(&v, i + 1, v.len());
            assert(r@ =~= s@.skip(i + 1));
            r
        },
        None => owned(s),
    }
}

/// PascalCase: an upper-case ASCII first letter, some lower-case ASCII
/// letter, and no `_`.
pub open spec fn is_pascal(name: Seq<char>) -> bool {
    &&& name.len() > 0
    &&& is_ascii_upper(name[0])
    &&& exists|i: int| 0 <= i < name.len() && 'a' <= #[trigger] name[i] && name[i] <= 'z'
    &&& forall|i: int| 0 <= i < name.len() ==> #[trigger] name[i] != '_'
}

fn is_pascal_exec(name: &str) -> (r: bool)
    ensures
        r == is_pascal(name@),
{
    let v = chars_of(name);
    if v.len() == 0 || !('A' <= v[0] && v[0] <= 'Z') {
        return false;
    }
    let mut lower = false;
    let mut i: usize = 0;
    while i < v.len()
        invariant
            i <= v.len(),
            v@ == name@,
            lower == exists|j: int| 0 <= j < i && 'a' <= #[trigger] v@[j] && v@[j] <= 'z',
            forall|j: int| 0 <= j < i ==> #[trigger] v@[j] != '_',
        decreases v.len() - i,
    {
        if v[i] == '_' {
            return false;
        }
        if 'a' <= v[i] && v[i] <= 'z' {
            lower = true;
        }
        i += 1;
    }
    lower
}

/// Pre-PEP 613 implicit alias: `ResponseValue = t.Union[str, bytes]` — a
/// PascalCase name, a subscripted right-hand side, no annotation.
fn is_implicit_alias(t: &SyntaxTree, name: &str, assign: usize) -> (r: bool)
    requires
        t.wf(),
        assign < t.len(),
    ensures
        r == implicit_alias_spec(*t, name@, assign as int),
{
    if child_by_field_name(t, assign, "type").is_some() {
        return false;
    }
    if !is_pascal_exec(name) {
        return false;
    }
    match child_by_field_name(t, assign, "right") {
        Some(r) => kind_is(t, r, "subscript"),
        None => false,
    }
}

/// A module-level assignment as a `type` (alias, `NewType`) or `const`
/// (upper-snake-case) symbol; type variables and other assignments yield
/// nothing.
fn module_assignment(t: &SyntaxTree, assign: usize, path: &str, module: &str) -> (r: Option<Symbol>)
    requires
        t.wf(),
        assign < t.len(),
    ensures
        r matches Some(s) ==> py_symbol_ok(s, module@, path@) && (s.kind@ == "type"@ || s.kind@ == "const"@),
        r is Some <==> assignment_kind(*t, assign as int) is Some,
        r matches Some(s) ==> py_sym_from(s, PySymSrc::Assign(assign as int), *t, path@, module@),
{
    let left = match child_by_field_name(t, assign, "left") {
        Some(l) => l,
        None => {
            return None;
        },
    };
    if !kind_is(t, left, "identifier") {
        return None;
    }
    let name = node_text(t, left);
    let is_alias = match child_by_field_name(t, assign, "type") {
        Some(a) => {
            let ann = trim_str(t.nodes[a].text.as_str());
            str_eq(ann.as_str(), "TypeAlias") || str_ends_with(ann.as_str(), ".TypeAlias")
        },
        None => false,
    };
    assert(is_alias == match child_in_field(*t, assign as int, "type"@) {
        Some(x) => trim(t.text(x as int)) == "TypeAlias"@ || ends_with(trim(t.text(x as int)), ".TypeAlias"@),
        None => false,
    });
    let called: Option<String> = match child_by_field_name(t, assign, "right") {
        Some(r) => {
            if kind_is(t, r, "call") {
                match child_by_field_name(t, r, "function") {
                    Some(f) => Some(last_dotted_exec(t.nodes[f].text.as_str())),
                    None => None,
                }
            } else {
                None
            }
        },
        None => None,
    };
    let (is_type_var, is_new_type) = match &called {
        Some(c) => (
            str_eq(c.as_str(), "TypeVar") || str_eq(c.as_str(), "ParamSpec") || str_eq(c.as_str(), "TypeVarTuple"),
            str_eq(c.as_str(), "NewType"),
        ),
        None => (false, false),
    };
    assert(match called {
        Some(c) => called_name(*t, assign as int) == Some(c@),
        None => called_name(*t, assign as int) is None,
    });
    if is_type_var {
        return None;
    }
    let kind = if is_alias || is_new_type || is_implicit_alias(t, name.as_str(), assign) {
        owned("type")
    } else if is_constant_name(name.as_str()) {
        owned("const")
    } else {
        return None;
    };
    let sig = truncate(squash(t.nodes[assign].text.as_str()), 120);
    proof {
        assert(module@.subrange(0, module@.len() as int) =~= module@);
        lemma_dotted_extends(module@, name@, module@);
    }
    Some(Symbol {
        visibility: visibility(name.as_str()),
        qualified_name: qualify(module, name.as_str()),
        name,
        kind,
        loc: loc_of(t, assign, path),
        signature: Some(sig),
        parent: None,
        attributes: Vec::new(),
        fields: Vec::new(),
        params: Vec::new(),
        return_type: None,
    })
}

/// A PEP 695 `type X = ...` statement as a `type` symbol.
fn type_alias_statement(t: &SyntaxTree, st: usize, path: &str, module: &str) -> (r: Option<Symbol>)
    requires
        t.wf(),
        st < t.len(),
    ensures
        r matches Some(s) ==> py_symbol_ok(s, module@, path@) && s.kind@ == "type"@,
        r is Some <==> alias_name(*t, st as int) is Some,
        r matches Some(s) ==> py_sym_from(s, PySymSrc::Alias(st as int), *t, path@, module@),
{
    let left = match child_by_field_name(t, st, "left") {
        Some(l) => l,
        None => {
            return None;
        },
    };
    let id = match first_identifier(t, left) {
        Some(i) => i,
        None => {
            return None;
        },
    };
    let name = node_text(t, id);
    let sig = truncate(squash(t.nodes[st].text.as_str()), 120);
    proof {
        assert(module@.subrange(0, module@.len() as int) =~= module@);
        lemma_dotted_extends(module@, name@, module@);
    }
    Some(Symbol {
        visibility: visibility(name.as_str()),
        qualified_name: qualify(module, name.as_str()),
        name,
        kind: owned("type"),
        loc: loc_of(t, st, path),
        signature: Some(sig),
        parent: None,
        attributes: Vec::new(),
        fields: Vec::new(),
        params: Vec::new(),
        return_type: None,
    })
}

// ---------------------------------------------------------------------------
// Imports
// ---------------------------------------------------------------------------

/// The absolute dotted path of a relative module reference (`.`, `..pkg`)
/// against the file's package; the raw text when it climbs above the
/// project root or has nothing to anchor to.
pub open spec fn resolve_relative_spec(raw: Seq<char>, package: Seq<Seq<char>>) -> Seq<char> {
    let after = trim_start_char(raw, '.');
    let dots = raw.len() - after.len();
    let rest = trim(after);
    if dots == 0 || dots - 1 > package.len() {
        raw
    } else {
        let base = package.take(package.len() - (dots - 1));
        let parts = if rest.len() > 0 {
            base.push(rest)
        } else {
            base
        };
        if parts.len() == 0 {
            raw
        } else {
            join(parts, "."@)
        }
    }
}

/// Resolve `.`, `..pkg` etc. to an absolute dotted path using the file's
/// package.
pub fn resolve_relative(raw: &str, package: &Vec<String>) -> (r: String)
    ensures
        r@ == resolve_relative_spec(raw@, views(package@)),
{
    let v = chars_of(raw);
    let dots = leading_count(&v, '.');
    let after = string_of(&v, dots, v.len());
    assert(after@ =~= v@.skip(dots as int));
    let rest = trim_str(after.as_str());
    if dots == 0 || dots - 1 > package.len() {
        return owned(raw);
    }
    let up = dots - 1;
    let keep = package.len() - up;
    let mut parts: Vec<String> = Vec::new();
    let mut i: usize = 0;
    while i < keep
        invariant
            i <= keep <= package.len(),
            views(parts@) == views(package@).take(i as int),
        decreases keep - i,
    {
        let ghost before = views(parts@);
        parts.push(package[i].clone());
        assert(views(parts@) =~= before.push(package@[i as int]@));
        assert(views(package@).take(i + 1) =~= views(package@).take(i as int).push(package@[i as int]@));
        i += 1;
    }
    if !rest.as_str().is_empty() {
        let ghost before = views(parts@);
        parts.push(rest);
        assert(views(parts@) =~= before.push(trim(v@.skip(dots as int))));
    }
    if parts.len() == 0 {
        return owned(raw);
    }
    join_strings(&parts, ".")
}

/// `module.name`, or `modulename` after a trailing dot, or `name` alone.
pub open spec fn join_import_spec(module: Seq<char>, name: Seq<char>) -> Seq<char> {
    if module.len() == 0 {
        name
    } else if ends_with(module, "."@) {
        module + name
    } else {
        module + "."@ + name
    }
}

fn join_import(module: &str, name: &str) -> (r: String)
    ensures
        r@ == join_import_spec(module@, name@),
{
    if module.is_empty() {
        owned(name)
    } else if str_ends_with(module, ".") {
        let mut r = owned(module);
        push_str(&mut r, name);
        r
    } else {
        let mut r = owned(module);
        push_str(&mut r, ".");
        push_str(&mut r, name);
        r
    }
}

fn import_from_exec(module: &str) -> (r: String)
    ensures
        r@ == import_from_spec(module@),
{
    if module.is_empty() {
        owned("(file)")
    } else {
        owned(module)
    }
}

/// The imported names of an import statement: each `name` child, or the
/// name inside an aliased import.
fn imported_names(t: &SyntaxTree, st: usize) -> (r: Vec<String>)
    requires
        t.wf(),
        st < t.len(),
    ensures
        views(r@) == imported_names_in(*t, t.children(st as int)),
{
    let mut out: Vec<String> = Vec::new();
    let cs = &t.nodes[st].children;
    let ghost all = t.children(st as int);
    proof {
        lemma_children_after(*t, st as int);
        assert(all.take(0) =~= Seq::<usize>::empty());
        assert(views(out@) =~= Seq::<Seq<char>>::empty());
    }
    let mut i: usize = 0;
    while i < cs.len()
        invariant
            i <= cs.len(),
            t.wf(),
            all == cs@,
            forall|j: int| 0 <= j < all.len() ==> st < #[trigger] all[j] < t.len(),
            views(out@) == imported_names_in(*t, all.take(i as int)),
        decreases cs.len() - i,
    {
        let c = cs[i];
        assert(all[i as int] == c);
        assert(all.take(i + 1).drop_last() =~= all.take(i as int));
        let is_name = match &t.nodes[c].field {
            Some(f) => str_eq(f.as_str(), "name"),
            None => false,
        };
        assert(is_name == (t.field(c as int) == Some("name"@)));
        if is_name {
            if kind_is(t, c, "aliased_import") {
                match child_by_field_name(t, c, "name") {
                    Some(n) => out.push(node_text(t, n)),
                    None => {},
                }
            } else {
                out.push(node_text(t, c));
            }
        }
        assert(views(out@) =~= imported_names_in(*t, all.take(i + 1)));
        i += 1;
    }
    assert(all.take(cs.len() as int) =~= all);
    out
}

fn push_import(t: &SyntaxTree, st: usize, to_name: String, path: &str, module: &str, ir: &mut Ir)
    requires
        t.wf(),
        st < t.len(),
    ensures
        py_grows(*old(ir), *final(ir), module@, path@),
        py_extends(*old(ir), *final(ir), PyOut { syms: seq![], deps: seq![PyDepSrc::Import(st as int, to_name@)] }, *t, path@, module@),
{
    let d = Dependency {
        from_qualified: import_from_exec(module),
        to_name,
        kind: DepKind::Import,
        loc: loc_of(t, st, path),
    };
    let ghost dv = d;
    push_py_dep(ir, d, Ghost(module@), Ghost(path@));
    proof {
        lemma_pushed_py_dep(*old(ir), *ir, dv, PyDepSrc::Import(st as int, dv.to_name@), *t, path@, module@);
    }
}

/// Push one import by the statement `st` per name of `names`.
fn push_imports(t: &SyntaxTree, st: usize, names: Vec<String>, path: &str, module: &str, ir: &mut Ir)
    requires
        t.wf(),
        st < t.len(),
    ensures
        py_grows(*old(ir), *final(ir), module@, path@),
        py_extends(*old(ir), *final(ir), PyOut { syms: seq![], deps: import_srcs(st as int, views(names@)) }, *t, path@, module@),
{
    let ghost nv = views(names@);
    proof {
        lemma_py_extends_refl(*ir, *t, path@, module@);
        assert(import_srcs(st as int, nv.take(0)) =~= Seq::<PyDepSrc>::empty());
    }
    let mut i: usize = 0;
    while i < names.len()
        invariant
            i <= names.len(),
            t.wf(),
            st < t.len(),
            nv == views(names@),
            py_grows(*old(ir), *ir, module@, path@),
            py_extends(*old(ir), *ir, PyOut { syms: seq![], deps: import_srcs(st as int, nv.take(i as int)) }, *t, path@, module@),
        decreases names.len() - i,
    {
        let ghost before = *ir;
        let nm = names[i].clone();
        assert(nm@ == nv[i as int]);
        push_import(t, st, nm, path, module, ir);
        proof {
            lemma_py_grows_trans(*old(ir), before, *ir, module@, path@);
            lemma_py_extends_trans(
                *old(ir),
                before,
                *ir,
                PyOut { syms: seq![], deps: import_srcs(st as int, nv.take(i as int)) },
                PyOut { syms: seq![], deps: seq![PyDepSrc::Import(st as int, nv[i as int])] },
                *t,
                path@,
                module@,
            );
            assert(import_srcs(st as int, nv.take(i as int)) + seq![PyDepSrc::Import(st as int, nv[i as int])] =~= import_srcs(
                st as int,
                nv.take(i + 1),
            ));
            assert(Seq::<PySymSrc>::empty() + Seq::<PySymSrc>::empty() =~= Seq::<PySymSrc>::empty());
        }
        i += 1;
    }
    assert(nv.take(names.len() as int) =~= nv);
}

/// `import a.b`, `import a.b as c` → one import per module.
fn import_statement(t: &SyntaxTree, st: usize, path: &str, module: &str, ir: &mut Ir)
    requires
        t.wf(),
        st < t.len(),
    ensures
        py_grows(*old(ir), *final(ir), module@, path@),
        py_extends(
            *old(ir),
            *final(ir),
            PyOut { syms: seq![], deps: import_srcs(st as int, imported_names_in(*t, t.children(st as int))) },
            *t,
            path@,
            module@,
        ),
{
    let names = imported_names(t, st);
    push_imports(t, st, names, path, module, ir);
}

/// `from a.b import c, d as e` → `a.b.c`, `a.b.d`; `from a import *` →
/// `a.*`; relative modules resolved against the file's package.
fn import_from_statement(t: &SyntaxTree, st: usize, path: &str, module: &str, package: &Vec<String>, ir: &mut Ir)
    requires
        t.wf(),
        st < t.len(),
    ensures
        py_grows(*old(ir), *final(ir), module@, path@),
        py_extends(
            *old(ir),
            *final(ir),
            PyOut { syms: seq![], deps: import_srcs(st as int, from_imports(*t, st as int, views(package@))) },
            *t,
            path@,
            module@,
        ),
{
    let m = match child_by_field_name(t, st, "module_name") {
        Some(m) => m,
        None => {
            proof {
                lemma_py_extends_refl(*ir, *t, path@, module@);
                assert(import_srcs(st as int, from_imports(*t, st as int, views(package@))) =~= Seq::<PyDepSrc>::empty());
            }
            return;
        },
    };
    let from = if kind_is(t, m, "relative_import") {
        resolve_relative(t.nodes[m].text.as_str(), package)
    } else {
        node_text(t, m)
    };
    assert(from@ == from_module(*t, m as int, views(package@)));
    let names = imported_names(t, st);
    let ghost nv = views(names@);
    let mut tos: Vec<String> = Vec::new();
    let mut i: usize = 0;
    while i < names.len()
        invariant
            i <= names.len(),
            nv == views(names@),
            views(tos@) == Seq::new(i as nat, |j: int| join_import_spec(from@, nv[j])),
        decreases names.len() - i,
    {
        let ghost before = views(tos@);
        let x = join_import(from.as_str(), names[i].as_str());
        assert(names@[i as int]@ == nv[i as int]);
        assert(x@ == join_import_spec(from@, nv[i as int]));
        tos.push(x);
        assert(views(tos@) =~= before.push(x@));
        assert(views(tos@) =~= Seq::new((i + 1) as nat, |j: int| join_import_spec(from@, nv[j])));
        i += 1;
    }
    if names.len() == 0 && first_named_child_of_kind(t, st, "wildcard_import").is_some() {
        let ghost before = views(tos@);
        tos.push(join_import(from.as_str(), "*"));
        assert(views(tos@) =~= before + seq![join_import_spec(from@, "*"@)]);
    } else {
        assert(views(tos@) =~= views(tos@) + Seq::<Seq<char>>::empty());
    }
    assert(views(tos@) =~= from_imports(*t, st as int, views(package@)));
    push_imports(t, st, tos, path, module, ir);
}

// ---------------------------------------------------------------------------
// Module scope
// ---------------------------------------------------------------------------

fn push_if_some(
    ir: &mut Ir,
    s: Option<Symbol>,
    Ghost(src): Ghost<PySymSrc>,
    Ghost(t): Ghost<SyntaxTree>,
    Ghost(module): Ghost<Seq<char>>,
    Ghost(path): Ghost<Seq<char>>,
)
    requires
        s matches Some(x) ==> py_symbol_ok(x, module, path) && py_sym_from(x, src, t, path, module),
    ensures
        py_grows(*old(ir), *final(ir), module, path),
        py_extends(
            *old(ir),
            *final(ir),
            if s is Some {
                PyOut { syms: seq![src], deps: seq![] }
            } else {
                py_out_none()
            },
            t,
            path,
            module,
        ),
{
    match s {
        Some(x) => {
            let ghost xv = x;
            push_py_symbol(ir, x, Ghost(module), Ghost(path));
            proof {
                lemma_pushed_py_symbol(*old(ir), *ir, xv, src, t, path, module);
            }
        },
        None => {
            proof {
                lemma_py_extends_refl(*ir, t, path, module);
            }
        },
    }
}

/// One module-level statement.
fn module_statement(t: &SyntaxTree, st: usize, path: &str, module: &str, package: &Vec<String>, ir: &mut Ir)
    requires
        t.wf(),
        st < t.len(),
    ensures
        py_grows(*old(ir), *final(ir), module@, path@),
        py_extends(*old(ir), *final(ir), module_stmt_out(*t, st as int, module@, views(package@)), *t, path@, module@),
{
    let no_decorators: Vec<String> = Vec::new();
    proof {
        assert(module@.subrange(0, module@.len() as int) =~= module@);
        assert(views(no_decorators@) =~= Seq::<Seq<char>>::empty());
        lemma_py_extends_refl(*ir, *t, path@, module@);
    }
    if kind_is(t, st, "import_statement") {
        import_statement(t, st, path, module, ir);
    } else if kind_is(t, st, "import_from_statement") {
        import_from_statement(t, st, path, module, package, ir);
    } else if kind_is(t, st, "function_definition") {
        let sym = function(t, st, path, module, &no_decorators, None);
        proof {
            lemma_dotted_extends(module@, sym.name@, module@);
        }
        let ghost sv = sym;
        push_py_symbol(ir, sym, Ghost(module@), Ghost(path@));
        proof {
            lemma_pushed_py_symbol(*old(ir), *ir, sv, PySymSrc::Func(st as int, seq![], None), *t, path@, module@);
        }
    } else if kind_is(t, st, "class_definition") {
        class(t, st, path, module, &no_decorators, None, ir);
    } else if kind_is(t, st, "decorated_definition") {
        let decos = decorators(t, st);
        match child_by_field_name(t, st, "definition") {
            Some(def) => {
                if kind_is(t, def, "function_definition") {
                    let sym = function(t, def, path, module, &decos, None);
                    proof {
                        lemma_dotted_extends(module@, sym.name@, module@);
                    }
                    let ghost sv = sym;
                    push_py_symbol(ir, sym, Ghost(module@), Ghost(path@));
                    proof {
                        lemma_pushed_py_symbol(
                            *old(ir),
                            *ir,
                            sv,
                            PySymSrc::Func(def as int, views(decos@), None),
                            *t,
                            path@,
                            module@,
                        );
                    }
                } else if kind_is(t, def, "class_definition") {
                    class(t, def, path, module, &decos, None, ir);
                }
            },
            None => {},
        }
    } else if kind_is(t, st, "type_alias_statement") {
        let s = type_alias_statement(t, st, path, module);
        push_if_some(ir, s, Ghost(PySymSrc::Alias(st as int)), Ghost(*t), Ghost(module@), Ghost(path@));
    } else if kind_is(t, st, "expression_statement") {
        match first_named_child_of_kind(t, st, "assignment") {
            Some(a) => {
                let s = module_assignment(t, a, path, module);
                push_if_some(ir, s, Ghost(PySymSrc::Assign(a as int)), Ghost(*t), Ghost(module@), Ghost(path@));
            },
            None => {},
        }
    }
}

/// The IR of a Python file from its syntax tree, under the file's module.
pub fn extract_ir(t: &SyntaxTree, path: &str) -> (r: Ir)
    requires
        t.wf(),
        t.len() > 0,
    ensures
        py_ir_ok(r, py_module_path_spec(path@), path@),
        py_ir_exact(r, *t, path@),
{
    let module = py_module_path(path);
    let package = package_path(path, module.as_str());
    let ghost pv = views(package@);
    let mut ir = Ir::new();
    let ghost start = ir;
    let stmts = statements(t, 0);
    let ghost sts = stmts@;
    proof {
        lemma_py_extends_refl(ir, *t, path@, module@);
        assert(sts.take(0) =~= Seq::<usize>::empty());
    }
    let mut i: usize = 0;
    while i < stmts.len()
        invariant
            i <= stmts.len(),
            t.wf(),
            sts == stmts@,
            pv == views(package@),
            forall|q: int| 0 <= q < stmts@.len() ==> 0 < #[trigger] stmts@[q] < t.len(),
            py_ir_ok(ir, module@, path@),
            py_extends(start, ir, module_out(*t, sts.take(i as int), module@, pv), *t, path@, module@),
        decreases stmts.len() - i,
    {
        let st = stmts[i];
        assert(stmts@[i as int] == st);
        assert(sts.take(i + 1).drop_last() =~= sts.take(i as int));
        assert(sts.take(i + 1).last() == st);
        let ghost before = ir;
        module_statement(t, st, path, module.as_str(), &package, &mut ir);
        proof {
            assert forall|k: int| 0 <= k < ir.symbols@.len() implies py_symbol_ok(#[trigger] ir.symbols@[k], module@, path@) by {
                if k < before.symbols@.len() {
                    assert(ir.symbols@[k] == before.symbols@[k]);
                }
            }
            assert forall|k: int| 0 <= k < ir.dependencies@.len() implies py_dep_ok(#[trigger] ir.dependencies@[k], module@, path@) by {
                if k < before.dependencies@.len() {
                    assert(ir.dependencies@[k] == before.dependencies@[k]);
                }
            }
            lemma_py_extends_trans(
                start,
                before,
                ir,
                module_out(*t, sts.take(i as int), module@, pv),
                module_stmt_out(*t, st as int, module@, pv),
                *t,
                path@,
                module@,
            );
        }
        i += 1;
    }
    proof {
        assert(sts.take(stmts.len() as int) =~= sts);
        let out = module_out(*t, sts, module@, pv);
        assert forall|k: int| 0 <= k < out.syms.len() implies py_sym_from(#[trigger] ir.symbols@[k], out.syms[k], *t, path@, module@) by {
            assert(ir.symbols@[start.symbols@.len() + k] == ir.symbols@[k]);
        }
        assert forall|k: int| 0 <= k < out.deps.len() implies py_dep_from(#[trigger] ir.dependencies@[k], out.deps[k], *t, path@, module@) by {
            assert(ir.dependencies@[start.dependencies@.len() + k] == ir.dependencies@[k]);
        }
    }
    ir
}

/// Parse a Python source file (`.py` / `.pyi`) and return the IR.
///
/// Kinds: `def` (module-level function), `class`, `method` (function in a
/// class body), `const` (module-level upper-snake-case assignment), `type`
/// (PEP 695 or explicit/implicit alias). Functions nested in functions are
/// skipped.
pub fn parse_file(path: &str, source: &str) -> (r: Result<Ir, String>)
    ensures
        r matches Ok(ir) ==> py_ir_ok(ir, py_module_path_spec(path@), path@),
        r is Ok <==> crate::parser::grammar::grammar_loads(crate::parser::grammar::grammar_id(crate::parser::grammar::Grammar::Python)),
        r matches Ok(ir) ==> exists|tr: SyntaxTree| tr.wf() && tr.len() > 0 && crate::parser::grammar::tree_view(tr) == crate::parser::grammar::ts_layout(
            crate::parser::grammar::grammar_id(crate::parser::grammar::Grammar::Python),
            source@,
        ) && #[trigger] py_ir_exact(ir, tr, path@),
{
    match crate::parser::grammar::build_tree(crate::parser::grammar::Grammar::Python, source) {
        Ok(t) => {
            let ir = extract_ir(&t, path);
            let r = Ok(ir);
            proof {
                let gi = r->Ok_0;
                assert(t.wf() && t.len() > 0 && crate::parser::grammar::tree_view(t) == crate::parser::grammar::ts_layout(crate::parser::grammar::grammar_id(crate::parser::grammar::Grammar::Python), source@) && py_ir_exact(gi, t, path@));
            }
            r
        },
        Err(e) => Err(crate::parser::grammar::tree_error_message(e, path)),
    }
}

} // verus!

verus! {

/// A Python name is private exactly when it starts with `_` and is not a
/// dunder (`__x__`, longer than four bytes); every other name is public.
pub proof fn lemma_python_visibility_cases(name: Seq<char>)
    ensures
        visibility_spec(name) == Visibility::Private <==> (name.len() > 0 && name[0] == '_' && !(byte_len(name) > 4
            && name.len() >= 2 && name[0] == '_' && name[1] == '_' && name[name.len() - 2] == '_' && name[name.len()
            - 1] == '_')),
        visibility_spec(name) == Visibility::Public <==> !(name.len() > 0 && name[0] == '_' && !(byte_len(name) > 4
            && name.len() >= 2 && name[0] == '_' && name[1] == '_' && name[name.len() - 2] == '_' && name[name.len()
            - 1] == '_')),
{
    reveal_strlit("__");
    if name.len() >= 2 && name[0] == '_' && name[1] == '_' {
        assert(name.subrange(0, 2) =~= "__"@);
    }
    if name.len() >= 2 && name[name.len() - 2] == '_' && name[name.len() - 1] == '_' {
        assert(name.subrange(name.len() - 2, name.len() as int) =~= "__"@);
    }
    if starts_with(name, "__"@) {
        assert(name[0] == name.subrange(0, 2)[0]);
        assert(name[1] == name.subrange(0, 2)[1]);
    }
    if ends_with(name, "__"@) {
        assert(name[name.len() - 2] == name.subrange(name.len() - 2, name.len() as int)[0]);
        assert(name[name.len() - 1] == name.subrange(name.len() - 2, name.len() as int)[1]);
    }
}

} // verus!
