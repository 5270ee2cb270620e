//! Rust conventions: the `crate::` module path of a file and the joining
//! of `use` tree segments.

use vstd::prelude::*;

use crate::ir::types::{DepKind, Dependency, Field, Ir, Param, SourceLoc, Symbol, Visibility};
use crate::parser::common::{
    call_target, calls_in_file, fields_view, is_call_dep, lemma_sorted_calls_in_file, params_view,
    push_call_deps, call_deps_spec, calls_view,
};
use crate::parser::tree::{
    child_by_field_name, child_in_field, child_of_kind, find_child_by_kind, is_loc_of, kind_is,
    lemma_children_after, loc_of, node_text, SyntaxTree,
};
use crate::split::{first_index, first_index_exec, remove_ws, replace_char_str, replace_with, without_ws};
use crate::text::{
    chars_of, concat, contains, owned, push_str, starts_with, str_contains, str_eq, string_of,
    strip_prefix, strip_prefix_str, strip_suffix, strip_suffix_str, trim, trim_str, views,
};

verus! {

/// `crate` for `src/main.rs` and `src/lib.rs`; otherwise `crate::` followed
/// by the path without `src/`, `.rs` and a trailing `/mod`, with `::` for `/`.
pub open spec fn rust_module_prefix_spec(p: Seq<char>) -> Seq<char> {
    let w = strip_suffix(strip_prefix(p, "src/"@), ".rs"@);
    if w == "main"@ || w == "lib"@ {
        "crate"@
    } else {
        "crate::"@ + replace_char_str(strip_suffix(w, "/mod"@), '/', "::"@)
    }
}

/// Derive a qualified module prefix from a file path.
/// `src/index/builder.rs` -> `crate::index::builder`; `src/main.rs` -> `crate`.
pub fn module_prefix_from_path(path: &str) -> (r: String)
    ensures
        r@ == rust_module_prefix_spec(path@),
{
    let stripped = strip_prefix_str(path, "src/");
    let w = strip_suffix_str(stripped.as_str(), ".rs");
    if str_eq(w.as_str(), "main") || str_eq(w.as_str(), "lib") {
        return owned("crate");
    }
    let m = strip_suffix_str(w.as_str(), "/mod");
    let rest = replace_with(m.as_str(), '/', "::");
    concat("crate::", rest.as_str())
}

/// `base::rest` with `rest` trimmed; either alone when the other is empty.
pub open spec fn join_use_path_spec(base: Seq<char>, rest: Seq<char>) -> Seq<char> {
    let r = trim(rest);
    if base.len() == 0 {
        r
    } else if r.len() == 0 {
        base
    } else {
        base + "::"@ + r
    }
}

/// Join a `use` path prefix and the rest of a path.
pub fn join_use_path(base: &str, rest: &str) -> (r: String)
    ensures
        r@ == join_use_path_spec(base@, rest@),
{
    let r = trim_str(rest);
    if base.is_empty() {
        r
    } else if r.as_str().is_empty() {
        owned(base)
    } else {
        let mut out = owned(base);
        push_str(&mut out, "::");
        push_str(&mut out, r.as_str());
        out
    }
}


// ---------------------------------------------------------------------------
// Names, visibility, signatures
// ---------------------------------------------------------------------------

/// `pub(crate)`-like modifiers give crate visibility, any other `pub`
/// public, none private.
pub open spec fn rust_visibility_spec(t: SyntaxTree, n: int) -> Visibility {
    match child_of_kind(t, n, "visibility_modifier"@) {
        Some(v) => if contains(t.text(v as int), "crate"@) {
            Visibility::Crate
        } else {
            Visibility::Public
        },
        None => Visibility::Private,
    }
}

/// The visibility of an item.
pub fn get_visibility(t: &SyntaxTree, n: usize) -> (r: Visibility)
    requires
        t.wf(),
        n < t.len(),
    ensures
        r == rust_visibility_spec(*t, n as int),
{
    match find_child_by_kind(t, n, "visibility_modifier") {
        Some(v) => {
            if str_contains(t.nodes[v].text.as_str(), "crate") {
                Visibility::Crate
            } else {
                Visibility::Public
            }
        },
        None => Visibility::Private,
    }
}

/// The text of the field `f` of `n`, if present.
pub open spec fn field_text(t: SyntaxTree, n: int, f: Seq<char>) -> Option<Seq<char>> {
    match child_in_field(t, n, f) {
        Some(c) => Some(t.text(c as int)),
        None => None,
    }
}

/// The text of the field `f` of `n`, or the empty text.
pub open spec fn field_text_or_empty(t: SyntaxTree, n: int, f: Seq<char>) -> Seq<char> {
    match field_text(t, n, f) {
        Some(x) => x,
        None => seq![],
    }
}

/// The text of field `f` of `n`.
pub fn get_field_text(t: &SyntaxTree, n: usize, f: &str) -> (r: Option<String>)
    requires
        t.wf(),
        n < t.len(),
    ensures
        match r {
            Some(x) => field_text(*t, n as int, f@) == Some(x@),
            None => field_text(*t, n as int, f@) is None,
        },
{
    match child_by_field_name(t, n, f) {
        Some(c) => Some(node_text(t, c)),
        None => None,
    }
}

fn field_text_or_default(t: &SyntaxTree, n: usize, f: &str) -> (r: String)
    requires
        t.wf(),
        n < t.len(),
    ensures
        r@ == field_text_or_empty(*t, n as int, f@),
{
    match get_field_text(t, n, f) {
        Some(x) => x,
        None => String::new(),
    }
}

/// The text before the body, or the first line, trimmed.
pub open spec fn rust_signature_spec(text: Seq<char>) -> Seq<char> {
    match first_index(text, '{') {
        Some(p) => trim(text.take(p)),
        None => match first_index(text, '\n') {
            Some(q) => trim(text.take(q)),
            None => trim(text),
        },
    }
}

/// The signature of a function item.
pub fn build_function_signature(t: &SyntaxTree, n: usize) -> (r: String)
    requires
        n < t.len(),
    ensures
        r@ == rust_signature_spec(t.text(n as int)),
{
    let v = chars_of(t.nodes[n].text.as_str());
    let cut = match first_index_exec(&v, '{') {
        Some(p) => p,
        None => match first_index_exec(&v, '\n') {
            Some(q) => q,
            None => v.len(),
        },
    };
    let head = string_of(&v, 0, cut);
    assert(head@ =~= v@.take(cut as int));
    assert(v@.take(v.len() as int) =~= v@);
    trim_str(head.as_str())
}

// ---------------------------------------------------------------------------
// Parameters and fields
// ---------------------------------------------------------------------------

/// The parameter one child of a parameter list declares, if any.
pub open spec fn rust_param_spec(t: SyntaxTree, c: int) -> Seq<(Seq<char>, Seq<char>)> {
    if t.kind(c) == "parameter"@ {
        let name = field_text_or_empty(t, c, "pattern"@);
        if name.len() > 0 {
            seq![(name, field_text_or_empty(t, c, "type"@))]
        } else {
            seq![]
        }
    } else if t.kind(c) == "self_parameter"@ {
        seq![("self"@, t.text(c))]
    } else {
        seq![]
    }
}

/// The parameters declared among the nodes `cs`.
pub open spec fn rust_params_in(t: SyntaxTree, cs: Seq<usize>) -> Seq<(Seq<char>, Seq<char>)>
    decreases cs.len(),
{
    if cs.len() == 0 {
        seq![]
    } else {
        rust_params_in(t, cs.drop_last()) + rust_param_spec(t, cs.last() as int)
    }
}

/// The parameters of a function item.
pub open spec fn rust_params_spec(t: SyntaxTree, n: int) -> Seq<(Seq<char>, Seq<char>)> {
    match child_in_field(t, n, "parameters"@) {
        Some(l) => rust_params_in(t, t.children(l as int)),
        None => seq![],
    }
}

/// The parameters of a function item.
pub fn extract_params(t: &SyntaxTree, n: usize) -> (r: Vec<Param>)
    requires
        t.wf(),
        n < t.len(),
    ensures
        params_view(r@) == rust_params_spec(*t, n as int),
{
    let mut params: Vec<Param> = Vec::new();
    assert(params_view(params@) =~= Seq::<(Seq<char>, Seq<char>)>::empty());
    let l = match child_by_field_name(t, n, "parameters") {
        Some(l) => l,
        None => {
            return params;
        },
    };
    let cs = &t.nodes[l].children;
    let ghost all = t.children(l as int);
    proof {
        lemma_children_after(*t, l as int);
    }
    let mut i: usize = 0;
    assert(all.take(0) =~= Seq::<usize>::empty());
    while i < cs.len()
        invariant
            i <= cs.len(),
            t.wf(),
            all == cs@,
            forall|j: int| 0 <= j < all.len() ==> l < #[trigger] all[j] < t.len(),
            params_view(params@) == rust_params_in(*t, all.take(i as int)),
        decreases cs.len() - i,
    {
        proof {
            crate::text::lemma_take_push(all, i as int);
        }
        let c = cs[i];
        assert(all[i as int] == c);
        let ghost before = params_view(params@);
        if kind_is(t, c, "parameter") {
            let name = field_text_or_default(t, c, "pattern");
            let ty = field_text_or_default(t, c, "type");
            if !name.as_str().is_empty() {
                params.push(Param { name, type_str: ty });
            }
        } else if kind_is(t, c, "self_parameter") {
            params.push(Param { name: owned("self"), type_str: node_text(t, c) });
        }
        assert(params_view(params@) =~= before + rust_param_spec(*t, c as int));
        i += 1;
    }
    assert(all.take(cs.len() as int) =~= all);
    params
}

/// The field one child of a struct body declares, if any.
pub open spec fn rust_field_spec(t: SyntaxTree, c: int) -> Seq<(Seq<char>, Seq<char>, Visibility)> {
    if t.kind(c) == "field_declaration"@ && field_text_or_empty(t, c, "name"@).len() > 0 {
        seq![(field_text_or_empty(t, c, "name"@), field_text_or_empty(t, c, "type"@), rust_visibility_spec(t, c))]
    } else {
        seq![]
    }
}

/// The fields declared among the nodes `cs`.
pub open spec fn rust_fields_in(t: SyntaxTree, cs: Seq<usize>) -> Seq<(Seq<char>, Seq<char>, Visibility)>
    decreases cs.len(),
{
    if cs.len() == 0 {
        seq![]
    } else {
        rust_fields_in(t, cs.drop_last()) + rust_field_spec(t, cs.last() as int)
    }
}

/// The named fields of a struct item.
pub open spec fn rust_fields_spec(t: SyntaxTree, n: int) -> Seq<(Seq<char>, Seq<char>, Visibility)> {
    match child_in_field(t, n, "body"@) {
        Some(b) => rust_fields_in(t, t.children(b as int)),
        None => seq![],
    }
}

/// The named fields of a struct item.
pub fn extract_struct_fields(t: &SyntaxTree, n: usize) -> (r: Vec<Field>)
    requires
        t.wf(),
        n < t.len(),
    ensures
        fields_view(r@) == rust_fields_spec(*t, n as int),
{
    let mut fields: Vec<Field> = Vec::new();
    assert(fields_view(fields@) =~= Seq::<(Seq<char>, Seq<char>, Visibility)>::empty());
    let b = match child_by_field_name(t, n, "body") {
        Some(b) => b,
        None => {
            return fields;
        },
    };
    let cs = &t.nodes[b].children;
    let ghost all = t.children(b as int);
    proof {
        lemma_children_after(*t, b as int);
    }
    let mut i: usize = 0;
    assert(all.take(0) =~= Seq::<usize>::empty());
    while i < cs.len()
        invariant
            i <= cs.len(),
            t.wf(),
            all == cs@,
            forall|j: int| 0 <= j < all.len() ==> b < #[trigger] all[j] < t.len(),
            fields_view(fields@) == rust_fields_in(*t, all.take(i as int)),
        decreases cs.len() - i,
    {
        proof {
            crate::text::lemma_take_push(all, i as int);
        }
        let c = cs[i];
        assert(all[i as int] == c);
        let ghost before = fields_view(fields@);
        if kind_is(t, c, "field_declaration") {
            let name = field_text_or_default(t, c, "name");
            let ty = field_text_or_default(t, c, "type");
            let vis = get_visibility(t, c);
            if !name.as_str().is_empty() {
                fields.push(Field { name, type_str: ty, visibility: vis });
            }
        }
        assert(fields_view(fields@) =~= before + rust_field_spec(*t, c as int));
        i += 1;
    }
    assert(all.take(cs.len() as int) =~= all);
    fields
}

// ---------------------------------------------------------------------------
// Item symbols
// ---------------------------------------------------------------------------

/// `prefix::name`, or `prefix::parent::name` for an item of an impl or trait.
pub open spec fn rust_qualified(prefix: Seq<char>, parent: Option<Seq<char>>, name: Seq<char>) -> Seq<char> {
    match parent {
        Some(p) => prefix + "::"@ + p + "::"@ + name,
        None => prefix + "::"@ + name,
    }
}

/// What a function item yields, apart from its attributes (the caller adds
/// those).
pub open spec fn is_rust_fn_symbol(
    s: Symbol,
    t: SyntaxTree,
    n: int,
    path: Seq<char>,
    prefix: Seq<char>,
    parent: Option<Seq<char>>,
) -> bool {
    &&& field_text(t, n, "name"@) == Some(s.name@)
    &&& s.qualified_name@ == rust_qualified(prefix, parent, s.name@)
    &&& s.kind@ == (if parent is Some { "method"@ } else { "fn"@ })
    &&& is_loc_of(s.loc, t, n, path)
    &&& s.visibility == rust_visibility_spec(t, n)
    &&& s.signature matches Some(sig) && sig@ == rust_signature_spec(t.text(n))
    &&& match s.parent {
        Some(p) => parent == Some(p@),
        None => parent is None,
    }
    &&& s.fields@.len() == 0
    &&& params_view(s.params@) == rust_params_spec(t, n)
    &&& match s.return_type {
        Some(x) => field_text(t, n, "return_type"@) matches Some(rt) && x@ == trim(rt),
        None => field_text(t, n, "return_type"@) is None,
    }
}

fn qualify(prefix: &str, parent: Option<&str>, name: &str) -> (r: String)
    ensures
        r@ == rust_qualified(
            prefix@,
            match parent {
                Some(p) => Some(p@),
                None => None,
            },
            name@,
        ),
{
    let mut q = owned(prefix);
    push_str(&mut q, "::");
    match parent {
        Some(p) => {
            push_str(&mut q, p);
            push_str(&mut q, "::");
        },
        None => {},
    }
    push_str(&mut q, name);
    q
}

/// A function item as a symbol; `None` without a name.
pub fn extract_function(t: &SyntaxTree, n: usize, path: &str, prefix: &str, parent: Option<&str>) -> (r: Option<Symbol>)
    requires
        t.wf(),
        n < t.len(),
    ensures
        r is Some <==> field_text(*t, n as int, "name"@) is Some,
        r matches Some(s) ==> s.attributes@.len() == 0,
        r matches Some(s) ==> is_rust_fn_symbol(
            s,
            *t,
            n as int,
            path@,
            prefix@,
            match parent {
                Some(p) => Some(p@),
                None => None,
            },
        ),
{
    let name = match get_field_text(t, n, "name") {
        Some(x) => x,
        None => {
            return None;
        },
    };
    let vis = get_visibility(t, n);
    let kind = match parent {
        Some(_) => owned("method"),
        None => owned("fn"),
    };
    let qualified_name = qualify(prefix, parent, name.as_str());
    let params = extract_params(t, n);
    let return_type = match get_field_text(t, n, "return_type") {
        Some(x) => Some(trim_str(x.as_str())),
        None => None,
    };
    let sig = build_function_signature(t, n);
    let parent_owned = match parent {
        Some(p) => Some(owned(p)),
        None => None,
    };
    Some(Symbol {
        name,
        qualified_name,
        kind,
        loc: loc_of(t, n, path),
        visibility: vis,
        signature: Some(sig),
        parent: parent_owned,
        attributes: Vec::new(),
        fields: Vec::new(),
        params,
        return_type,
    })
}

/// What a named item of kind `k` (struct, enum, trait, const, type, mod)
/// yields; a struct also carries its named fields.
pub open spec fn is_rust_item_symbol(s: Symbol, t: SyntaxTree, n: int, path: Seq<char>, prefix: Seq<char>, k: Seq<char>) -> bool {
    &&& field_text(t, n, "name"@) == Some(s.name@)
    &&& s.qualified_name@ == rust_qualified(prefix, None, s.name@)
    &&& s.kind@ == k
    &&& is_loc_of(s.loc, t, n, path)
    &&& s.visibility == rust_visibility_spec(t, n)
    &&& s.signature is None
    &&& s.parent is None
    &&& (if k == "struct"@ {
        fields_view(s.fields@) == rust_fields_spec(t, n)
    } else {
        s.fields@.len() == 0
    })
    &&& s.params@.len() == 0
    &&& s.return_type is None
}

/// A named item of kind `k` as a symbol; `None` without a name.
pub fn extract_item(t: &SyntaxTree, n: usize, path: &str, prefix: &str, k: &str) -> (r: Option<Symbol>)
    requires
        t.wf(),
        n < t.len(),
    ensures
        r is Some <==> field_text(*t, n as int, "name"@) is Some,
        r matches Some(s) ==> s.attributes@.len() == 0,
        r matches Some(s) ==> is_rust_item_symbol(s, *t, n as int, path@, prefix@, k@),
{
    let name = match get_field_text(t, n, "name") {
        Some(x) => x,
        None => {
            return None;
        },
    };
    let vis = get_visibility(t, n);
    let qualified_name = qualify(prefix, None, name.as_str());
    let fields = if str_eq(k, "struct") {
        extract_struct_fields(t, n)
    } else {
        Vec::new()
    };
    Some(Symbol {
        name,
        qualified_name,
        kind: owned(k),
        loc: loc_of(t, n, path),
        visibility: vis,
        signature: None,
        parent: None,
        attributes: Vec::new(),
        fields,
        params: Vec::new(),
        return_type: None,
    })
}

// ---------------------------------------------------------------------------
// What every extracted symbol and dependency satisfies
// ---------------------------------------------------------------------------

/// The symbol kinds the Rust parser emits.
pub open spec fn is_rust_kind(k: Seq<char>) -> bool {
    ||| k == "fn"@
    ||| k == "method"@
    ||| k == "struct"@
    ||| k == "enum"@
    ||| k == "trait"@
    ||| k == "impl"@
    ||| k == "const"@
    ||| k == "type"@
    ||| k == "mod"@
}

/// A symbol of the module `prefix` in the file `path`.
pub open spec fn rust_symbol_ok(s: Symbol, prefix: Seq<char>, path: Seq<char>) -> bool {
    &&& s.loc.file@ == path
    &&& is_rust_kind(s.kind@)
    &&& starts_with(s.qualified_name@, prefix + "::"@)
}

/// A dependency of the module `prefix` in the file `path`: from the module
/// or one of its items.
pub open spec fn rust_dep_ok(d: Dependency, prefix: Seq<char>, path: Seq<char>) -> bool {
    &&& d.loc.file@ == path
    &&& (d.from_qualified@ == prefix || starts_with(d.from_qualified@, prefix + "::"@))
    &&& (d.kind == DepKind::Import ==> d.from_qualified@ == prefix)
}

/// `new` keeps everything of `old` and only adds valid symbols and
/// dependencies.
pub open spec fn rust_grows(old: Ir, new: Ir, prefix: Seq<char>, path: Seq<char>) -> bool {
    &&& old.symbols@.len() <= new.symbols@.len()
    &&& old.dependencies@.len() <= new.dependencies@.len()
    &&& forall|i: int| 0 <= i < old.symbols@.len() ==> #[trigger] new.symbols@[i] == old.symbols@[i]
    &&& forall|i: int| 0 <= i < old.dependencies@.len() ==> #[trigger] new.dependencies@[i] == old.dependencies@[i]
    &&& forall|i: int| old.symbols@.len() <= i < new.symbols@.len() ==> rust_symbol_ok(#[trigger] new.symbols@[i], prefix, path)
    &&& forall|i: int| old.dependencies@.len() <= i < new.dependencies@.len() ==> rust_dep_ok(#[trigger] new.dependencies@[i], prefix, path)
}

/// Every symbol and dependency of `ir` is valid for the file.
pub open spec fn rust_ir_ok(ir: Ir, prefix: Seq<char>, path: Seq<char>) -> bool {
    &&& forall|i: int| 0 <= i < ir.symbols@.len() ==> rust_symbol_ok(#[trigger] ir.symbols@[i], prefix, path)
    &&& forall|i: int| 0 <= i < ir.dependencies@.len() ==> rust_dep_ok(#[trigger] ir.dependencies@[i], prefix, path)
}

pub proof fn lemma_rust_grows_trans(a: Ir, b: Ir, c: Ir, prefix: Seq<char>, path: Seq<char>)
    requires
        rust_grows(a, b, prefix, path),
        rust_grows(b, c, prefix, path),
    ensures
        rust_grows(a, c, prefix, path),
{
    assert forall|i: int| a.symbols@.len() <= i < c.symbols@.len() implies rust_symbol_ok(#[trigger] c.symbols@[i], prefix, path) by {
        if i < b.symbols@.len() {
            assert(c.symbols@[i] == b.symbols@[i]);
        }
    }
    assert forall|i: int| a.dependencies@.len() <= i < c.dependencies@.len() implies rust_dep_ok(#[trigger] c.dependencies@[i], prefix, path) by {
        if i < b.dependencies@.len() {
            assert(c.dependencies@[i] == b.dependencies@[i]);
        }
    }
}

pub proof fn lemma_rust_qualified_starts(prefix: Seq<char>, parent: Option<Seq<char>>, name: Seq<char>)
    ensures
        starts_with(rust_qualified(prefix, parent, name), prefix + "::"@),
{
    let q = rust_qualified(prefix, parent, name);
    let p = prefix + "::"@;
    assert(q.subrange(0, p.len() as int) =~= p);
}

fn push_rust_symbol(ir: &mut Ir, s: Symbol, Ghost(prefix): Ghost<Seq<char>>, Ghost(path): Ghost<Seq<char>>)
    requires
        rust_symbol_ok(s, prefix, path),
    ensures
        rust_grows(*old(ir), *final(ir), prefix, path),
        final(ir).symbols@ == old(ir).symbols@.push(s),
        final(ir).dependencies@ == old(ir).dependencies@,
{
    ir.symbols.push(s);
}

fn push_rust_dep(ir: &mut Ir, d: Dependency, Ghost(prefix): Ghost<Seq<char>>, Ghost(path): Ghost<Seq<char>>)
    requires
        rust_dep_ok(d, prefix, path),
    ensures
        rust_grows(*old(ir), *final(ir), prefix, path),
        final(ir).dependencies@ == old(ir).dependencies@.push(d),
        final(ir).symbols@ == old(ir).symbols@,
{
    ir.dependencies.push(d);
}

// ---------------------------------------------------------------------------
// Calls
// ---------------------------------------------------------------------------

/// Callees that are prelude enum-variant constructors, not calls.
pub open spec fn is_skipped_callee(name: Seq<char>) -> bool {
    name == "Some"@ || name == "Ok"@ || name == "Err"@
}

/// The callee a call's `function` node names, with the node that locates
/// it: a plain or scoped path, the field of a method call, or the function
/// of a generic call; prelude constructors are not calls.
pub open spec fn rust_callee_spec(t: SyntaxTree, n: int) -> Option<(Seq<char>, int)>
    decreases t.len() - n,
{
    if !(0 <= n < t.len()) {
        None
    } else {
        let k = t.kind(n);
        if k == "identifier"@ || k == "scoped_identifier"@ {
            match crate::parser::common::call_target_spec(t.text(n)) {
                Some(name) => if is_skipped_callee(name) {
                    None
                } else {
                    Some((name, n))
                },
                None => None,
            }
        } else if k == "field_expression"@ {
            match child_in_field(t, n, "field"@) {
                Some(f) => match crate::parser::common::call_target_spec(t.text(f as int)) {
                    Some(name) => if is_skipped_callee(name) {
                        None
                    } else {
                        Some((name, f as int))
                    },
                    None => None,
                },
                None => None,
            }
        } else if k == "generic_function"@ {
            match child_in_field(t, n, "function"@) {
                Some(inner) => if n < inner < t.len() {
                    rust_callee_spec(t, inner as int)
                } else {
                    None
                },
                None => None,
            }
        } else {
            None
        }
    }
}

/// The calls under node `n`, as (callee, locating node): its own call first,
/// then those of its children, last child first.
pub open spec fn calls_under(t: SyntaxTree, n: int) -> Seq<(Seq<char>, int)>
    decreases t.len() - n, 1int, 0int,
{
    if !(0 <= n < t.len()) {
        seq![]
    } else {
        let own = if t.kind(n) == "call_expression"@ {
            match child_in_field(t, n, "function"@) {
                Some(f) => if n < f < t.len() {
                    match rust_callee_spec(t, f as int) {
                        Some(c) => seq![c],
                        None => seq![],
                    }
                } else {
                    seq![]
                },
                None => seq![],
            }
        } else {
            seq![]
        };
        own + calls_in_children(t, n, t.children(n))
    }
}

/// The calls under the children `cs` of `n`, the last child's first.
pub open spec fn calls_in_children(t: SyntaxTree, n: int, cs: Seq<usize>) -> Seq<(Seq<char>, int)>
    decreases t.len() - n, 0int, cs.len(),
{
    if cs.len() == 0 || !(0 <= n < t.len()) {
        seq![]
    } else {
        calls_in_children(t, n, cs.drop_first()) + if n < cs[0] < t.len() {
            calls_under(t, cs[0] as int)
        } else {
            seq![]
        }
    }
}

/// Calls recorded with source locations match calls found as nodes.
pub open spec fn calls_match(cv: Seq<(Seq<char>, SourceLoc)>, cs: Seq<(Seq<char>, int)>, t: SyntaxTree, path: Seq<char>) -> bool {
    &&& cv.len() == cs.len()
    &&& forall|i: int| 0 <= i < cv.len() ==> (#[trigger] cv[i]).0 == cs[i].0 && is_loc_of(cv[i].1, t, cs[i].1, path)
}

/// Must the call at node `a` come after the one at node `b`?
pub open spec fn node_after(t: SyntaxTree, a: int, b: int) -> bool {
    let la = crate::parser::tree::one_based(t.nodes@[a].row);
    let lb = crate::parser::tree::one_based(t.nodes@[b].row);
    la > lb || (la == lb && crate::parser::tree::one_based(t.nodes@[a].col) > crate::parser::tree::one_based(
        t.nodes@[b].col,
    ))
}

pub open spec fn insert_node_call(t: SyntaxTree, s: Seq<(Seq<char>, int)>, x: (Seq<char>, int)) -> Seq<(Seq<char>, int)>
    decreases s.len(),
{
    if s.len() == 0 {
        seq![x]
    } else if node_after(t, s.last().1, x.1) {
        insert_node_call(t, s.drop_last(), x).push(s.last())
    } else {
        s.push(x)
    }
}

pub open spec fn sort_node_calls(t: SyntaxTree, s: Seq<(Seq<char>, int)>) -> Seq<(Seq<char>, int)>
    decreases s.len(),
{
    if s.len() == 0 {
        seq![]
    } else {
        insert_node_call(t, sort_node_calls(t, s.drop_last()), s.last())
    }
}

pub open spec fn node_callee_names(s: Seq<(Seq<char>, int)>) -> Seq<Seq<char>> {
    s.map_values(|c: (Seq<char>, int)| c.0)
}

pub open spec fn first_node_per_callee(s: Seq<(Seq<char>, int)>) -> Seq<(Seq<char>, int)>
    decreases s.len(),
{
    if s.len() == 0 {
        seq![]
    } else if node_callee_names(s.drop_last()).contains(s.last().0) {
        first_node_per_callee(s.drop_last())
    } else {
        first_node_per_callee(s.drop_last()).push(s.last())
    }
}

/// The call dependencies of a body: its calls in source order, the first of
/// each callee.
pub open spec fn body_call_deps(t: SyntaxTree, body: int) -> Seq<(Seq<char>, int)> {
    first_node_per_callee(sort_node_calls(t, calls_under(t, body)))
}

proof fn lemma_calls_match_prefix(cv: Seq<(Seq<char>, SourceLoc)>, cs: Seq<(Seq<char>, int)>, t: SyntaxTree, path: Seq<char>)
    requires
        calls_match(cv, cs, t, path),
        cv.len() > 0,
    ensures
        calls_match(cv.drop_last(), cs.drop_last(), t, path),
        cv.last().0 == cs.last().0,
        is_loc_of(cv.last().1, t, cs.last().1, path),
{
    assert forall|i: int| 0 <= i < cv.drop_last().len() implies (#[trigger] cv.drop_last()[i]).0 == cs.drop_last()[i].0
        && is_loc_of(cv.drop_last()[i].1, t, cs.drop_last()[i].1, path) by {
        assert(cv.drop_last()[i] == cv[i]);
    }
    assert(cv[cv.len() - 1] == cv.last());
}

proof fn lemma_calls_match_push(
    cv: Seq<(Seq<char>, SourceLoc)>,
    cs: Seq<(Seq<char>, int)>,
    a: (Seq<char>, SourceLoc),
    b: (Seq<char>, int),
    t: SyntaxTree,
    path: Seq<char>,
)
    requires
        calls_match(cv, cs, t, path),
        a.0 == b.0,
        is_loc_of(a.1, t, b.1, path),
    ensures
        calls_match(cv.push(a), cs.push(b), t, path),
{
    assert forall|i: int| 0 <= i < cv.push(a).len() implies (#[trigger] cv.push(a)[i]).0 == cs.push(b)[i].0
        && is_loc_of(cv.push(a)[i].1, t, cs.push(b)[i].1, path) by {
        if i < cv.len() {
            assert(cv.push(a)[i] == cv[i]);
        }
    }
}

proof fn lemma_insert_matches(
    cv: Seq<(Seq<char>, SourceLoc)>,
    cs: Seq<(Seq<char>, int)>,
    a: (Seq<char>, SourceLoc),
    b: (Seq<char>, int),
    t: SyntaxTree,
    path: Seq<char>,
)
    requires
        calls_match(cv, cs, t, path),
        a.0 == b.0,
        is_loc_of(a.1, t, b.1, path),
    ensures
        calls_match(crate::parser::common::insert_call(cv, a), insert_node_call(t, cs, b), t, path),
    decreases cv.len(),
{
    if cv.len() == 0 {
        assert(crate::parser::common::insert_call(cv, a) =~= seq![a]);
        assert(insert_node_call(t, cs, b) =~= seq![b]);
    } else {
        lemma_calls_match_prefix(cv, cs, t, path);
        if crate::parser::common::loc_after(cv.last().1, a.1) {
            lemma_insert_matches(cv.drop_last(), cs.drop_last(), a, b, t, path);
            lemma_calls_match_push(
                crate::parser::common::insert_call(cv.drop_last(), a),
                insert_node_call(t, cs.drop_last(), b),
                cv.last(),
                cs.last(),
                t,
                path,
            );
        } else {
            lemma_calls_match_push(cv, cs, a, b, t, path);
        }
    }
}

proof fn lemma_sort_matches(cv: Seq<(Seq<char>, SourceLoc)>, cs: Seq<(Seq<char>, int)>, t: SyntaxTree, path: Seq<char>)
    requires
        calls_match(cv, cs, t, path),
    ensures
        calls_match(crate::parser::common::sort_calls(cv), sort_node_calls(t, cs), t, path),
    decreases cv.len(),
{
    if cv.len() > 0 {
        lemma_calls_match_prefix(cv, cs, t, path);
        lemma_sort_matches(cv.drop_last(), cs.drop_last(), t, path);
        lemma_insert_matches(
            crate::parser::common::sort_calls(cv.drop_last()),
            sort_node_calls(t, cs.drop_last()),
            cv.last(),
            cs.last(),
            t,
            path,
        );
    }
}

proof fn lemma_first_matches(cv: Seq<(Seq<char>, SourceLoc)>, cs: Seq<(Seq<char>, int)>, t: SyntaxTree, path: Seq<char>)
    requires
        calls_match(cv, cs, t, path),
    ensures
        calls_match(crate::parser::common::first_per_callee(cv), first_node_per_callee(cs), t, path),
    decreases cv.len(),
{
    if cv.len() > 0 {
        lemma_calls_match_prefix(cv, cs, t, path);
        lemma_first_matches(cv.drop_last(), cs.drop_last(), t, path);
        assert(crate::parser::common::callee_names(cv.drop_last()) =~= node_callee_names(cs.drop_last())) by {
            assert forall|i: int| 0 <= i < cv.drop_last().len() implies crate::parser::common::callee_names(cv.drop_last())[i]
                == node_callee_names(cs.drop_last())[i] by {
                assert(cv.drop_last()[i].0 == cs.drop_last()[i].0);
            }
        }
        if !node_callee_names(cs.drop_last()).contains(cs.last().0) {
            lemma_calls_match_push(
                crate::parser::common::first_per_callee(cv.drop_last()),
                first_node_per_callee(cs.drop_last()),
                cv.last(),
                cs.last(),
                t,
                path,
            );
        }
    }
}

/// Resolve a call's `function` node to the recorded callee name and the
/// node that locates it.
pub fn rust_callee(t: &SyntaxTree, n: usize) -> (r: Option<(String, usize)>)
    requires
        t.wf(),
        n < t.len(),
    ensures
        r matches Some(x) ==> x.1 < t.len() && !is_skipped_callee(x.0@),
        match r {
            Some(x) => rust_callee_spec(*t, n as int) == Some((x.0@, x.1 as int)),
            None => rust_callee_spec(*t, n as int) is None,
        },
    decreases t.len() - n,
{
    if kind_is(t, n, "identifier") || kind_is(t, n, "scoped_identifier") {
        match call_target(t.nodes[n].text.as_str()) {
            Some(name) => {
                if str_eq(name.as_str(), "Some") || str_eq(name.as_str(), "Ok") || str_eq(name.as_str(), "Err") {
                    None
                } else {
                    Some((name, n))
                }
            },
            None => None,
        }
    } else if kind_is(t, n, "field_expression") {
        match child_by_field_name(t, n, "field") {
            Some(f) => match call_target(t.nodes[f].text.as_str()) {
                Some(name) => {
                    if str_eq(name.as_str(), "Some") || str_eq(name.as_str(), "Ok") || str_eq(name.as_str(), "Err") {
                        return None;
                    }
                    Some((name, f))
                },
                None => None,
            },
            None => None,
        }
    } else if kind_is(t, n, "generic_function") {
        match child_by_field_name(t, n, "function") {
            Some(inner) => rust_callee(t, inner),
            None => None,
        }
    } else {
        None
    }
}

/// Collect the calls under `n`, visiting each node before its children and
/// the children last to first.
fn collect_calls(t: &SyntaxTree, n: usize, path: &str, calls: &mut Vec<(String, SourceLoc)>)
    requires
        t.wf(),
        n < t.len(),
        calls_in_file(calls_view(old(calls)@), path@),
    ensures
        calls_in_file(calls_view(final(calls)@), path@),
        final(calls)@.len() >= old(calls)@.len(),
        calls_view(final(calls)@).take(old(calls)@.len() as int) == calls_view(old(calls)@),
        calls_match(calls_view(final(calls)@).skip(old(calls)@.len() as int), calls_under(*t, n as int), *t, path@),
    decreases t.len() - n,
{
    let ghost start = calls_view(calls@);
    let ghost own: Seq<(Seq<char>, int)> = seq![];
    if kind_is(t, n, "call_expression") {
        match child_by_field_name(t, n, "function") {
            Some(callee) => match rust_callee(t, callee) {
                Some((name, at)) => {
                    let ghost before = calls_view(calls@);
                    let ghost nv = name@;
                    calls.push((name, loc_of(t, at, path)));
                    assert(calls_view(calls@) =~= before.push((calls@.last().0@, calls@.last().1)));
                    proof {
                        own = seq![(nv, at as int)];
                    }
                },
                None => {},
            },
            None => {},
        }
    }
    let ghost mid = calls_view(calls@);
    proof {
        assert(mid.take(start.len() as int) =~= start);
        if own.len() == 1 {
            assert(mid.skip(start.len() as int) =~= seq![mid.last()]);
        } else {
            assert(mid.skip(start.len() as int) =~= Seq::<(Seq<char>, SourceLoc)>::empty());
        }
    }
    let cs = &t.nodes[n].children;
    let ghost all = t.children(n as int);
    proof {
        lemma_children_after(*t, n as int);
        assert(all.skip(all.len() as int) =~= Seq::<usize>::empty());
        assert(calls_view(calls@).skip(mid.len() as int) =~= Seq::<(Seq<char>, SourceLoc)>::empty());
    }
    let mut k = cs.len();
    while k > 0
        invariant
            k <= cs.len(),
            t.wf(),
            n < t.len(),
            all == cs@,
            all == t.children(n as int),
            forall|j: int| 0 <= j < all.len() ==> n < #[trigger] all[j] < t.len(),
            calls_in_file(calls_view(calls@), path@),
            calls_view(calls@).take(mid.len() as int) == mid,
            mid.len() <= calls_view(calls@).len(),
            calls_match(calls_view(calls@).skip(mid.len() as int), calls_in_children(*t, n as int, all.skip(k as int)), *t, path@),
        decreases k,
    {
        k -= 1;
        let c = cs[k];
        assert(all[k as int] == c);
        let ghost before = calls_view(calls@);
        collect_calls(t, c, path, calls);
        proof {
            let after = calls_view(calls@);
            let inner = calls_under(*t, c as int);
            assert(all.skip(k as int).drop_first() =~= all.skip(k + 1));
            assert(all.skip(k as int)[0] == c);
            let prev = calls_in_children(*t, n as int, all.skip(k + 1));
            assert(calls_in_children(*t, n as int, all.skip(k as int)) == prev + inner);
            assert(after.take(mid.len() as int) =~= mid) by {
                assert(after.take(before.len() as int) == before);
                assert(before.take(mid.len() as int) == mid);
            }
            assert(after.skip(mid.len() as int) =~= before.skip(mid.len() as int) + after.skip(before.len() as int)) by {
                assert(after.take(before.len() as int) == before);
            }
            let x = before.skip(mid.len() as int);
            let y = after.skip(before.len() as int);
            assert forall|i: int| 0 <= i < (x + y).len() implies (#[trigger] (x + y)[i]).0 == (prev + inner)[i].0 && is_loc_of(
                (x + y)[i].1,
                *t,
                (prev + inner)[i].1,
                path@,
            ) by {
                if i < x.len() {
                    assert((x + y)[i] == x[i]);
                } else {
                    assert((x + y)[i] == y[i - x.len()]);
                }
            }
        }
    }
    proof {
        let fin = calls_view(calls@);
        assert(all.skip(0) =~= all);
        assert(fin.take(start.len() as int) =~= start) by {
            assert(fin.take(mid.len() as int) == mid);
        }
        assert(calls_under(*t, n as int) == own + calls_in_children(*t, n as int, all));
        let x = mid.skip(start.len() as int);
        let y = fin.skip(mid.len() as int);
        assert(fin.skip(start.len() as int) =~= x + y) by {
            assert(fin.take(mid.len() as int) == mid);
        }
        assert forall|i: int| 0 <= i < (x + y).len() implies (#[trigger] (x + y)[i]).0 == (own + calls_in_children(
            *t,
            n as int,
            all,
        ))[i].0 && is_loc_of((x + y)[i].1, *t, (own + calls_in_children(*t, n as int, all))[i].1, path@) by {
            if i < x.len() {
                assert((x + y)[i] == x[i]);
                assert(x[i] == mid.last());
            } else {
                assert((x + y)[i] == y[i - x.len()]);
            }
        }
    }
}

/// Emit `Call` deps for every call expression in a function's body. Calls in
/// closures and nested fns are attributed to this function; macros are not
/// calls.
fn extract_calls(t: &SyntaxTree, func: usize, path: &str, from_qualified: &str, ir: &mut Ir, Ghost(prefix): Ghost<Seq<char>>)
    requires
        t.wf(),
        func < t.len(),
        starts_with(from_qualified@, prefix + "::"@),
    ensures
        rust_grows(*old(ir), *final(ir), prefix, path@),
        rust_extends(
            *old(ir),
            *final(ir),
            RustOut { syms: seq![], deps: fn_calls(*t, func as int, from_qualified@) },
            *t,
            path@,
            prefix,
        ),
{
    let body = match child_by_field_name(t, func, "body") {
        Some(b) => b,
        None => {
            return;
        },
    };
    let mut calls: Vec<(String, SourceLoc)> = Vec::new();
    assert(calls_view(calls@) =~= Seq::<(Seq<char>, SourceLoc)>::empty());
    collect_calls(t, body, path, &mut calls);
    let ghost cv = calls_view(calls@);
    let ghost bcd = body_call_deps(*t, body as int);
    proof {
        lemma_sorted_calls_in_file(cv, path@);
        assert(cv.skip(0) =~= cv);
        lemma_sort_matches(cv, calls_under(*t, body as int), *t, path@);
        lemma_first_matches(
            crate::parser::common::sort_calls(cv),
            sort_node_calls(*t, calls_under(*t, body as int)),
            *t,
            path@,
        );
    }
    push_call_deps(ir, from_qualified, calls);
    proof {
        let srcs = call_srcs(from_qualified@, bcd);
        assert forall|k: int| 0 <= k < srcs.len() implies rust_dep_from(
            #[trigger] ir.dependencies@[old(ir).dependencies@.len() + k],
            srcs[k],
            *t,
            path@,
            prefix,
        ) by {
            assert(is_call_dep(ir.dependencies@[old(ir).dependencies@.len() + k], from_qualified@, call_deps_spec(cv)[k]));
            assert(call_deps_spec(cv)[k].0 == bcd[k].0);
        }
    }
    assert forall|i: int| old(ir).dependencies@.len() <= i < ir.dependencies@.len() implies rust_dep_ok(
        #[trigger] ir.dependencies@[i],
        prefix,
        path@,
    ) by {
        let k = i - old(ir).dependencies@.len();
        assert(is_call_dep(ir.dependencies@[old(ir).dependencies@.len() + k], from_qualified@, call_deps_spec(cv)[k]));
        assert(call_deps_spec(cv)[k].1.file@ == path@);
    }
}


// ---------------------------------------------------------------------------
// Use declarations
// ---------------------------------------------------------------------------

/// The imported leaves of the use tree `n` under the path `base`, each with
/// its full path and the node that locates it.
pub open spec fn use_leaves(t: SyntaxTree, n: int, base: Seq<char>) -> Seq<(Seq<char>, int)>
    decreases t.len() - n, 1int, 0int,
{
    if !(0 <= n < t.len()) {
        seq![]
    } else {
        let k = t.kind(n);
        if k == "scoped_use_list"@ {
            let nb = match child_in_field(t, n, "path"@) {
                Some(p) => join_use_path_spec(base, t.text(p as int)),
                None => base,
            };
            match child_in_field(t, n, "list"@) {
                Some(l) => if n < l < t.len() {
                    use_leaves(t, l as int, nb)
                } else {
                    seq![]
                },
                None => seq![],
            }
        } else if k == "use_list"@ {
            use_list_leaves(t, n, t.children(n), base)
        } else if k == "use_as_clause"@ {
            match child_in_field(t, n, "path"@) {
                Some(p) => if n < p < t.len() {
                    use_leaves(t, p as int, base)
                } else {
                    seq![]
                },
                None => seq![],
            }
        } else if k == "self"@ && base.len() > 0 {
            seq![(base, n)]
        } else {
            seq![(join_use_path_spec(base, remove_ws(t.text(n))), n)]
        }
    }
}

/// The leaves of the entries `cs` of the `use_list` `n`; comments and
/// punctuation are skipped.
pub open spec fn use_list_leaves(t: SyntaxTree, n: int, cs: Seq<usize>, base: Seq<char>) -> Seq<(Seq<char>, int)>
    decreases t.len() - n, 0int, cs.len(),
{
    if cs.len() == 0 || !(0 <= n < t.len()) {
        seq![]
    } else {
        let c = cs.last();
        use_list_leaves(t, n, cs.drop_last(), base) + if n < c < t.len() && t.nodes@[c as int].named && t.kind(c as int)
            != "line_comment"@ && t.kind(c as int) != "block_comment"@ {
            use_leaves(t, c as int, base)
        } else {
            seq![]
        }
    }
}

pub open spec fn leaves_view(v: Seq<(String, usize)>) -> Seq<(Seq<char>, int)> {
    v.map_values(|x: (String, usize)| (x.0@, x.1 as int))
}

/// Collect the imported leaves of a use tree, each with its full path and
/// the node that locates it: `a::{B, c::D}` → `a::B`, `a::c::D`;
/// `x::y as z` → `x::y`; `{self, ..}` imports the base itself.
fn collect_use_leaves(t: &SyntaxTree, n: usize, base: &str, out: &mut Vec<(String, usize)>)
    requires
        t.wf(),
        n < t.len(),
        forall|k: int| 0 <= k < old(out)@.len() ==> (#[trigger] old(out)@[k]).1 < t.len(),
    ensures
        forall|k: int| 0 <= k < final(out)@.len() ==> (#[trigger] final(out)@[k]).1 < t.len(),
        leaves_view(final(out)@) == leaves_view(old(out)@) + use_leaves(*t, n as int, base@),
    decreases t.len() - n,
{
    let ghost start = leaves_view(out@);
    if kind_is(t, n, "scoped_use_list") {
        let new_base = match child_by_field_name(t, n, "path") {
            Some(p) => join_use_path(base, t.nodes[p].text.as_str()),
            None => owned(base),
        };
        match child_by_field_name(t, n, "list") {
            Some(l) => collect_use_leaves(t, l, new_base.as_str(), out),
            None => {
                assert(leaves_view(out@) =~= start + Seq::<(Seq<char>, int)>::empty());
            },
        }
    } else if kind_is(t, n, "use_list") {
        let cs = &t.nodes[n].children;
        let ghost all = t.children(n as int);
        proof {
            lemma_children_after(*t, n as int);
            assert(all.take(0) =~= Seq::<usize>::empty());
            assert(leaves_view(out@) =~= start + Seq::<(Seq<char>, int)>::empty());
        }
        let mut i: usize = 0;
        while i < cs.len()
            invariant
                i <= cs.len(),
                t.wf(),
                n < t.len(),
                all == cs@,
                all == t.children(n as int),
                forall|j: int| 0 <= j < all.len() ==> n < #[trigger] all[j] < t.len(),
                forall|k: int| 0 <= k < out@.len() ==> (#[trigger] out@[k]).1 < t.len(),
                leaves_view(out@) == start + use_list_leaves(*t, n as int, all.take(i as int), base@),
            decreases cs.len() - i,
        {
            let c = cs[i];
            assert(all[i as int] == c);
            let ghost before = leaves_view(out@);
            if t.nodes[c].named && !kind_is(t, c, "line_comment") && !kind_is(t, c, "block_comment") {
                collect_use_leaves(t, c, base, out);
            } else {
                assert(leaves_view(out@) =~= before + Seq::<(Seq<char>, int)>::empty());
            }
            proof {
                assert(all.take(i + 1).drop_last() =~= all.take(i as int));
                assert(all.take(i + 1).last() == c);
                assert(start + use_list_leaves(*t, n as int, all.take(i + 1), base@) =~= before + (
                leaves_view(out@).skip(before.len() as int)));
            }
            i += 1;
        }
        assert(all.take(cs.len() as int) =~= all);
    } else if kind_is(t, n, "use_as_clause") {
        match child_by_field_name(t, n, "path") {
            Some(p) => collect_use_leaves(t, p, base, out),
            None => {
                assert(leaves_view(out@) =~= start + Seq::<(Seq<char>, int)>::empty());
            },
        }
    } else if kind_is(t, n, "self") && !base.is_empty() {
        out.push((owned(base), n));
        assert(leaves_view(out@) =~= start + seq![(base@, n as int)]);
    } else {
        let text = without_ws(t.nodes[n].text.as_str());
        let leaf = join_use_path(base, text.as_str());
        let ghost lv = leaf@;
        out.push((leaf, n));
        assert(leaves_view(out@) =~= start + seq![(lv, n as int)]);
    }
}

/// One import per leaf of a use declaration, from the module.
fn extract_use(t: &SyntaxTree, n: usize, path: &str, prefix: &str, ir: &mut Ir)
    requires
        t.wf(),
        n < t.len(),
    ensures
        rust_grows(*old(ir), *final(ir), prefix@, path@),
        rust_extends(*old(ir), *final(ir), use_out(*t, n as int), *t, path@, prefix@),
{
    let arg = match child_by_field_name(t, n, "argument") {
        Some(a) => a,
        None => {
            return;
        },
    };
    let mut leaves: Vec<(String, usize)> = Vec::new();
    assert(leaves_view(leaves@) =~= Seq::<(Seq<char>, int)>::empty());
    collect_use_leaves(t, arg, "", &mut leaves);
    let ghost lv = leaves_view(leaves@);
    assert(lv =~= use_leaves(*t, arg as int, ""@));
    proof {
        assert(use_srcs(lv.take(0)) =~= Seq::<RustDepSrc>::empty());
    }
    let mut i: usize = 0;
    while i < leaves.len()
        invariant
            i <= leaves.len(),
            t.wf(),
            lv == leaves_view(leaves@),
            forall|k: int| 0 <= k < leaves@.len() ==> (#[trigger] leaves@[k]).1 < t.len(),
            rust_grows(*old(ir), *ir, prefix@, path@),
            rust_extends(*old(ir), *ir, RustOut { syms: seq![], deps: use_srcs(lv.take(i as int)) }, *t, path@, prefix@),
        decreases leaves.len() - i,
    {
        let leaf = leaves[i].1;
        assert(leaves@[i as int].1 < t.len());
        let d = Dependency {
            from_qualified: owned(prefix),
            to_name: leaves[i].0.clone(),
            kind: DepKind::Import,
            loc: loc_of(t, leaf, path),
        };
        let ghost before = *ir;
        push_rust_dep(ir, d, Ghost(prefix@), Ghost(path@));
        proof {
            lemma_rust_grows_trans(*old(ir), before, *ir, prefix@, path@);
            assert(lv[i as int] == (leaves@[i as int].0@, leaves@[i as int].1 as int));
            lemma_pushed_rust_dep(before, *ir, d, RustDepSrc::Use(lv[i as int].0, lv[i as int].1), *t, path@, prefix@);
            lemma_rust_extends_trans(
                *old(ir),
                before,
                *ir,
                RustOut { syms: seq![], deps: use_srcs(lv.take(i as int)) },
                RustOut { syms: seq![], deps: seq![RustDepSrc::Use(lv[i as int].0, lv[i as int].1)] },
                *t,
                path@,
                prefix@,
            );
            assert(use_srcs(lv.take(i as int)) + seq![RustDepSrc::Use(lv[i as int].0, lv[i as int].1)] =~= use_srcs(
                lv.take(i + 1),
            ));
            assert(Seq::<RustSymSrc>::empty() + Seq::<RustSymSrc>::empty() =~= Seq::<RustSymSrc>::empty());
        }
        i += 1;
    }
    assert(lv.take(leaves@.len() as int) =~= lv);
}

// ---------------------------------------------------------------------------
// What a file yields, item by item
// ---------------------------------------------------------------------------

/// The item a symbol comes from.
pub enum RustSymSrc {
    /// The function item `n` of the module, or of the impl or trait named by
    /// the second field, with its attributes.
    Func(int, Option<Seq<char>>, Seq<Seq<char>>),
    /// The named item `n` of kind `k`, with its attributes.
    Item(int, Seq<char>, Seq<Seq<char>>),
    /// The impl block `n`, with its attributes.
    Impl(int, Seq<Seq<char>>),
}

/// What a dependency comes from.
pub enum RustDepSrc {
    /// A call of the callee named by the second field, located at node `at`,
    /// in the function qualified by the first field.
    Call(Seq<char>, Seq<char>, int),
    /// The trait that the impl block `n` implements.
    Implements(int),
    /// An imported path, located at node `at`.
    Use(Seq<char>, int),
}

/// What a walk yields: symbol sources and dependency sources, in order.
pub struct RustOut {
    pub syms: Seq<RustSymSrc>,
    pub deps: Seq<RustDepSrc>,
}

pub open spec fn rust_out_none() -> RustOut {
    RustOut { syms: seq![], deps: seq![] }
}

pub open spec fn rust_out_cat(a: RustOut, b: RustOut) -> RustOut {
    RustOut { syms: a.syms + b.syms, deps: a.deps + b.deps }
}

pub open spec fn parent_view(p: Option<&str>) -> Option<Seq<char>> {
    match p {
        Some(x) => Some(x@),
        None => None,
    }
}

/// The type an impl block is for; `unknown` without one.
pub open spec fn impl_type_spec(t: SyntaxTree, n: int) -> Seq<char> {
    match field_text(t, n, "type"@) {
        Some(x) => x,
        None => "unknown"@,
    }
}

/// What an impl block yields, apart from its attributes.
pub open spec fn is_rust_impl_symbol(s: Symbol, t: SyntaxTree, n: int, path: Seq<char>, prefix: Seq<char>) -> bool {
    &&& s.name@ == impl_name_spec(t, n)
    &&& s.qualified_name@ == rust_qualified(prefix, None, impl_type_spec(t, n))
    &&& s.kind@ == "impl"@
    &&& is_loc_of(s.loc, t, n, path)
    &&& s.visibility == Visibility::Private
    &&& s.signature is None
    &&& s.parent is None
    &&& s.fields@.len() == 0
    &&& s.params@.len() == 0
    &&& s.return_type is None
}

/// Is `s` the symbol that `src` yields?
pub open spec fn rust_sym_from(s: Symbol, src: RustSymSrc, t: SyntaxTree, path: Seq<char>, prefix: Seq<char>) -> bool {
    match src {
        RustSymSrc::Func(n, parent, attrs) => is_rust_fn_symbol(s, t, n, path, prefix, parent) && views(s.attributes@)
            == attrs,
        RustSymSrc::Item(n, k, attrs) => is_rust_item_symbol(s, t, n, path, prefix, k) && views(s.attributes@) == attrs,
        RustSymSrc::Impl(n, attrs) => is_rust_impl_symbol(s, t, n, path, prefix) && views(s.attributes@) == attrs,
    }
}

/// Is `d` the dependency that `src` yields?
pub open spec fn rust_dep_from(d: Dependency, src: RustDepSrc, t: SyntaxTree, path: Seq<char>, prefix: Seq<char>) -> bool {
    match src {
        RustDepSrc::Call(from, callee, at) => {
            &&& d.from_qualified@ == from
            &&& d.to_name@ == callee
            &&& d.kind == DepKind::Call
            &&& is_loc_of(d.loc, t, at, path)
        },
        RustDepSrc::Implements(n) => {
            &&& field_text(t, n, "trait"@) == Some(d.to_name@)
            &&& d.from_qualified@ == rust_qualified(prefix, None, impl_type_spec(t, n))
            &&& d.kind == DepKind::Implements
            &&& is_loc_of(d.loc, t, n, path)
        },
        RustDepSrc::Use(leaf, at) => {
            &&& d.from_qualified@ == prefix
            &&& d.to_name@ == leaf
            &&& d.kind == DepKind::Import
            &&& is_loc_of(d.loc, t, at, path)
        },
    }
}

/// The `Call` dependencies from `from` for the calls `cs`.
pub open spec fn call_srcs(from: Seq<char>, cs: Seq<(Seq<char>, int)>) -> Seq<RustDepSrc> {
    Seq::new(cs.len(), |i: int| RustDepSrc::Call(from, cs[i].0, cs[i].1))
}

/// The calls of the function item `n`'s body, from `from`.
pub open spec fn fn_calls(t: SyntaxTree, n: int, from: Seq<char>) -> Seq<RustDepSrc> {
    match child_in_field(t, n, "body"@) {
        Some(b) => call_srcs(from, body_call_deps(t, b as int)),
        None => seq![],
    }
}

/// What the function item `n` yields with the attributes `attrs`: its
/// calls and itself, or nothing without a name.
pub open spec fn fn_out(t: SyntaxTree, n: int, prefix: Seq<char>, parent: Option<Seq<char>>, attrs: Seq<Seq<char>>) -> RustOut {
    match field_text(t, n, "name"@) {
        Some(nm) => RustOut {
            syms: seq![RustSymSrc::Func(n, parent, attrs)],
            deps: fn_calls(t, n, rust_qualified(prefix, parent, nm)),
        },
        None => rust_out_none(),
    }
}

/// What the named item `n` of kind `k` yields with the attributes `attrs`.
pub open spec fn item_out(t: SyntaxTree, n: int, k: Seq<char>, attrs: Seq<Seq<char>>) -> RustOut {
    match field_text(t, n, "name"@) {
        Some(_) => RustOut { syms: seq![RustSymSrc::Item(n, k, attrs)], deps: seq![] },
        None => rust_out_none(),
    }
}

/// The imports of the leaves `ls`.
pub open spec fn use_srcs(ls: Seq<(Seq<char>, int)>) -> Seq<RustDepSrc> {
    Seq::new(ls.len(), |i: int| RustDepSrc::Use(ls[i].0, ls[i].1))
}

/// What a use declaration yields: one import per leaf.
pub open spec fn use_out(t: SyntaxTree, n: int) -> RustOut {
    match child_in_field(t, n, "argument"@) {
        Some(a) => RustOut { syms: seq![], deps: use_srcs(use_leaves(t, a as int, ""@)) },
        None => rust_out_none(),
    }
}

/// What the entries `cs` of an impl body for `self_ty` yield, and the
/// attributes still pending after them.
pub open spec fn impl_body_out(t: SyntaxTree, cs: Seq<usize>, prefix: Seq<char>, self_ty: Seq<char>) -> (
    RustOut,
    Seq<Seq<char>>,
)
    decreases cs.len(),
{
    if cs.len() == 0 {
        (rust_out_none(), seq![])
    } else {
        let (o, p) = impl_body_out(t, cs.drop_last(), prefix, self_ty);
        let c = cs.last() as int;
        let k = t.kind(c);
        if k == "attribute_item"@ {
            (o, p.push(t.text(c)))
        } else if k == "function_item"@ {
            (rust_out_cat(o, fn_out(t, c, prefix, Some(self_ty), p)), seq![])
        } else if k == "const_item"@ {
            (rust_out_cat(o, item_out(t, c, "const"@, p)), seq![])
        } else if k == "type_item"@ {
            (rust_out_cat(o, item_out(t, c, "type"@, p)), seq![])
        } else {
            (o, p)
        }
    }
}

/// What the impl block `n` yields with the attributes `attrs`: itself, the
/// trait it implements, then its items.
pub open spec fn impl_out(t: SyntaxTree, n: int, prefix: Seq<char>, attrs: Seq<Seq<char>>) -> RustOut {
    let me = RustOut {
        syms: seq![RustSymSrc::Impl(n, attrs)],
        deps: if field_text(t, n, "trait"@) is Some {
            seq![RustDepSrc::Implements(n)]
        } else {
            seq![]
        },
    };
    match child_in_field(t, n, "body"@) {
        Some(b) => rust_out_cat(me, impl_body_out(t, t.children(b as int), prefix, impl_type_spec(t, n)).0),
        None => me,
    }
}

/// What the entries `cs` of the body of the trait `name` yield: its
/// functions with a default body; anything else drops pending attributes.
pub open spec fn trait_body_out(t: SyntaxTree, cs: Seq<usize>, prefix: Seq<char>, name: Seq<char>) -> (
    RustOut,
    Seq<Seq<char>>,
)
    decreases cs.len(),
{
    if cs.len() == 0 {
        (rust_out_none(), seq![])
    } else {
        let (o, p) = trait_body_out(t, cs.drop_last(), prefix, name);
        let c = cs.last() as int;
        let k = t.kind(c);
        if k == "attribute_item"@ {
            (o, p.push(t.text(c)))
        } else if k == "function_item"@ {
            (rust_out_cat(o, fn_out(t, c, prefix, Some(name), p)), seq![])
        } else {
            (o, seq![])
        }
    }
}

/// What the trait item `n` yields with the attributes `attrs`: itself, then
/// its default methods.
pub open spec fn trait_out(t: SyntaxTree, n: int, prefix: Seq<char>, attrs: Seq<Seq<char>>) -> RustOut {
    match field_text(t, n, "name"@) {
        Some(nm) => {
            let me = RustOut { syms: seq![RustSymSrc::Item(n, "trait"@, attrs)], deps: seq![] };
            match child_in_field(t, n, "body"@) {
                Some(b) => rust_out_cat(me, trait_body_out(t, t.children(b as int), prefix, nm).0),
                None => me,
            }
        },
        None => rust_out_none(),
    }
}

/// What the items `cs` of a module yield, and the attributes still pending
/// after them; each run of attributes goes to the item that follows it.
pub open spec fn items_out(t: SyntaxTree, cs: Seq<usize>, prefix: Seq<char>) -> (RustOut, Seq<Seq<char>>)
    decreases cs.len(),
{
    if cs.len() == 0 {
        (rust_out_none(), seq![])
    } else {
        let (o, p) = items_out(t, cs.drop_last(), prefix);
        let c = cs.last() as int;
        let k = t.kind(c);
        if k == "attribute_item"@ {
            (o, p.push(t.text(c)))
        } else if k == "function_item"@ {
            (rust_out_cat(o, fn_out(t, c, prefix, None, p)), seq![])
        } else if k == "struct_item"@ {
            (rust_out_cat(o, item_out(t, c, "struct"@, p)), seq![])
        } else if k == "enum_item"@ {
            (rust_out_cat(o, item_out(t, c, "enum"@, p)), seq![])
        } else if k == "trait_item"@ {
            (rust_out_cat(o, trait_out(t, c, prefix, p)), seq![])
        } else if k == "impl_item"@ {
            (rust_out_cat(o, impl_out(t, c, prefix, p)), seq![])
        } else if k == "use_declaration"@ {
            (rust_out_cat(o, use_out(t, c)), seq![])
        } else if k == "const_item"@ {
            (rust_out_cat(o, item_out(t, c, "const"@, p)), seq![])
        } else if k == "type_item"@ {
            (rust_out_cat(o, item_out(t, c, "type"@, p)), seq![])
        } else if k == "mod_item"@ {
            (rust_out_cat(o, item_out(t, c, "mod"@, p)), seq![])
        } else {
            (o, p)
        }
    }
}

/// `new` is `old` followed by one symbol and one dependency per source of
/// `out`, in order, each what its source yields.
pub open spec fn rust_extends(old: Ir, new: Ir, out: RustOut, t: SyntaxTree, path: Seq<char>, prefix: Seq<char>) -> bool {
    &&& new.symbols@.len() == old.symbols@.len() + out.syms.len()
    &&& new.dependencies@.len() == old.dependencies@.len() + out.deps.len()
    &&& forall|i: int| 0 <= i < old.symbols@.len() ==> #[trigger] new.symbols@[i] == old.symbols@[i]
    &&& forall|i: int| 0 <= i < old.dependencies@.len() ==> #[trigger] new.dependencies@[i] == old.dependencies@[i]
    &&& forall|k: int| 0 <= k < out.syms.len() ==> rust_sym_from(
        #[trigger] new.symbols@[old.symbols@.len() + k],
        out.syms[k],
        t,
        path,
        prefix,
    )
    &&& forall|k: int| 0 <= k < out.deps.len() ==> rust_dep_from(
        #[trigger] new.dependencies@[old.dependencies@.len() + k],
        out.deps[k],
        t,
        path,
        prefix,
    )
}

/// The IR of the file `path` is exactly what the items of the tree `t`
/// yield, in order, under the file's module path.
pub open spec fn rust_ir_exact(ir: Ir, t: SyntaxTree, path: Seq<char>) -> bool {
    let prefix = rust_module_prefix_spec(path);
    let out = items_out(t, t.children(0), prefix).0;
    &&& ir.symbols@.len() == out.syms.len()
    &&& ir.dependencies@.len() == out.deps.len()
    &&& forall|k: int| 0 <= k < out.syms.len() ==> rust_sym_from(#[trigger] ir.symbols@[k], out.syms[k], t, path, prefix)
    &&& forall|k: int| 0 <= k < out.deps.len() ==> rust_dep_from(#[trigger] ir.dependencies@[k], out.deps[k], t, path, prefix)
}

pub proof fn lemma_rust_extends_trans(
    a: Ir,
    b: Ir,
    c: Ir,
    o1: RustOut,
    o2: RustOut,
    t: SyntaxTree,
    path: Seq<char>,
    prefix: Seq<char>,
)
    requires
        rust_extends(a, b, o1, t, path, prefix),
        rust_extends(b, c, o2, t, path, prefix),
    ensures
        rust_extends(a, c, rust_out_cat(o1, o2), t, path, prefix),
{
    let al = a.symbols@.len() as int;
    let ad = a.dependencies@.len() as int;
    let o = rust_out_cat(o1, o2);
    assert forall|i: int| 0 <= i < a.symbols@.len() implies #[trigger] c.symbols@[i] == a.symbols@[i] by {
        assert(c.symbols@[i] == b.symbols@[i]);
    }
    assert forall|i: int| 0 <= i < a.dependencies@.len() implies #[trigger] c.dependencies@[i] == a.dependencies@[i] by {
        assert(c.dependencies@[i] == b.dependencies@[i]);
    }
    assert forall|k: int| 0 <= k < o.syms.len() implies rust_sym_from(#[trigger] c.symbols@[al + k], o.syms[k], t, path, prefix) by {
        if k < o1.syms.len() {
            assert(c.symbols@[al + k] == b.symbols@[al + k]);
        } else {
            let j = k - o1.syms.len();
            assert(b.symbols@.len() + j == al + k);
            assert(rust_sym_from(c.symbols@[b.symbols@.len() + j], o2.syms[j], t, path, prefix));
        }
    }
    assert forall|k: int| 0 <= k < o.deps.len() implies rust_dep_from(#[trigger] c.dependencies@[ad + k], o.deps[k], t, path, prefix) by {
        if k < o1.deps.len() {
            assert(c.dependencies@[ad + k] == b.dependencies@[ad + k]);
        } else {
            let j = k - o1.deps.len();
            assert(b.dependencies@.len() + j == ad + k);
            assert(rust_dep_from(c.dependencies@[b.dependencies@.len() + j], o2.deps[j], t, path, prefix));
        }
    }
}

pub proof fn lemma_rust_extends_refl(a: Ir, t: SyntaxTree, path: Seq<char>, prefix: Seq<char>)
    ensures
        rust_extends(a, a, rust_out_none(), t, path, prefix),
{
}

proof fn lemma_rust_out_none_cat(o: RustOut)
    ensures
        rust_out_cat(rust_out_none(), o) == o,
        rust_out_cat(o, rust_out_none()) == o,
{
    assert(rust_out_cat(rust_out_none(), o).syms =~= o.syms);
    assert(rust_out_cat(rust_out_none(), o).deps =~= o.deps);
    assert(rust_out_cat(o, rust_out_none()).syms =~= o.syms);
    assert(rust_out_cat(o, rust_out_none()).deps =~= o.deps);
}

/// One pushed symbol extends the IR by its source.
proof fn lemma_pushed_rust_symbol(a: Ir, b: Ir, s: Symbol, src: RustSymSrc, t: SyntaxTree, path: Seq<char>, prefix: Seq<char>)
    requires
        b.symbols@ == a.symbols@.push(s),
        b.dependencies@ == a.dependencies@,
        rust_sym_from(s, src, t, path, prefix),
    ensures
        rust_extends(a, b, RustOut { syms: seq![src], deps: seq![] }, t, path, prefix),
{
    assert(b.symbols@[a.symbols@.len() + 0int] == s);
}

/// One pushed dependency extends the IR by its source.
proof fn lemma_pushed_rust_dep(a: Ir, b: Ir, d: Dependency, src: RustDepSrc, t: SyntaxTree, path: Seq<char>, prefix: Seq<char>)
    requires
        b.dependencies@ == a.dependencies@.push(d),
        b.symbols@ == a.symbols@,
        rust_dep_from(d, src, t, path, prefix),
    ensures
        rust_extends(a, b, RustOut { syms: seq![], deps: seq![src] }, t, path, prefix),
{
    assert(b.dependencies@[a.dependencies@.len() + 0int] == d);
}

/// The item kinds the walk tells apart are different words.
proof fn lemma_rust_kinds_distinct()
    ensures
        "attribute_item"@ != "function_item"@,
        "attribute_item"@ != "struct_item"@,
        "attribute_item"@ != "enum_item"@,
        "attribute_item"@ != "trait_item"@,
        "attribute_item"@ != "impl_item"@,
        "attribute_item"@ != "use_declaration"@,
        "attribute_item"@ != "const_item"@,
        "attribute_item"@ != "type_item"@,
        "attribute_item"@ != "mod_item"@,
        "function_item"@ != "struct_item"@,
        "function_item"@ != "enum_item"@,
        "function_item"@ != "trait_item"@,
        "function_item"@ != "impl_item"@,
        "function_item"@ != "use_declaration"@,
        "function_item"@ != "const_item"@,
        "function_item"@ != "type_item"@,
        "function_item"@ != "mod_item"@,
        "struct_item"@ != "enum_item"@,
        "struct_item"@ != "trait_item"@,
        "struct_item"@ != "impl_item"@,
        "struct_item"@ != "use_declaration"@,
        "struct_item"@ != "const_item"@,
        "struct_item"@ != "type_item"@,
        "struct_item"@ != "mod_item"@,
        "enum_item"@ != "trait_item"@,
        "enum_item"@ != "impl_item"@,
        "enum_item"@ != "use_declaration"@,
        "enum_item"@ != "const_item"@,
        "enum_item"@ != "type_item"@,
        "enum_item"@ != "mod_item"@,
        "trait_item"@ != "impl_item"@,
        "trait_item"@ != "use_declaration"@,
        "trait_item"@ != "const_item"@,
        "trait_item"@ != "type_item"@,
        "trait_item"@ != "mod_item"@,
        "impl_item"@ != "use_declaration"@,
        "impl_item"@ != "const_item"@,
        "impl_item"@ != "type_item"@,
        "impl_item"@ != "mod_item"@,
        "use_declaration"@ != "const_item"@,
        "use_declaration"@ != "type_item"@,
        "use_declaration"@ != "mod_item"@,
        "const_item"@ != "type_item"@,
        "const_item"@ != "mod_item"@,
        "type_item"@ != "mod_item"@,
{
    reveal_strlit("attribute_item");
    reveal_strlit("function_item");
    reveal_strlit("struct_item");
    reveal_strlit("enum_item");
    reveal_strlit("trait_item");
    reveal_strlit("impl_item");
    reveal_strlit("use_declaration");
    reveal_strlit("const_item");
    reveal_strlit("type_item");
    reveal_strlit("mod_item");
    assert("attribute_item"@[0] != "function_item"@[0]);
    assert("attribute_item"@[0] != "struct_item"@[0]);
    assert("attribute_item"@[0] != "enum_item"@[0]);
    assert("attribute_item"@[0] != "trait_item"@[0]);
    assert("attribute_item"@[0] != "impl_item"@[0]);
    assert("attribute_item"@[0] != "use_declaration"@[0]);
    assert("attribute_item"@[0] != "const_item"@[0]);
    assert("attribute_item"@[0] != "type_item"@[0]);
    assert("attribute_item"@[0] != "mod_item"@[0]);
    assert("function_item"@[0] != "struct_item"@[0]);
    assert("function_item"@[0] != "enum_item"@[0]);
    assert("function_item"@[0] != "trait_item"@[0]);
    assert("function_item"@[0] != "impl_item"@[0]);
    assert("function_item"@[0] != "use_declaration"@[0]);
    assert("function_item"@[0] != "const_item"@[0]);
    assert("function_item"@[0] != "type_item"@[0]);
    assert("function_item"@[0] != "mod_item"@[0]);
    assert("struct_item"@[0] != "enum_item"@[0]);
    assert("struct_item"@[0] != "trait_item"@[0]);
    assert("struct_item"@[0] != "impl_item"@[0]);
    assert("struct_item"@[0] != "use_declaration"@[0]);
    assert("struct_item"@[0] != "const_item"@[0]);
    assert("struct_item"@[0] != "type_item"@[0]);
    assert("struct_item"@[0] != "mod_item"@[0]);
    assert("enum_item"@[0] != "trait_item"@[0]);
    assert("enum_item"@[0] != "impl_item"@[0]);
    assert("enum_item"@[0] != "use_declaration"@[0]);
    assert("enum_item"@[0] != "const_item"@[0]);
    assert("enum_item"@[0] != "type_item"@[0]);
    assert("enum_item"@[0] != "mod_item"@[0]);
    assert("trait_item"@[0] != "impl_item"@[0]);
    assert("trait_item"@[0] != "use_declaration"@[0]);
    assert("trait_item"@[0] != "const_item"@[0]);
    assert("trait_item"@[1] != "type_item"@[1]);
    assert("trait_item"@[0] != "mod_item"@[0]);
    assert("impl_item"@[0] != "use_declaration"@[0]);
    assert("impl_item"@[0] != "const_item"@[0]);
    assert("impl_item"@[0] != "type_item"@[0]);
    assert("impl_item"@[0] != "mod_item"@[0]);
    assert("use_declaration"@[0] != "const_item"@[0]);
    assert("use_declaration"@[0] != "type_item"@[0]);
    assert("use_declaration"@[0] != "mod_item"@[0]);
    assert("const_item"@[0] != "type_item"@[0]);
    assert("const_item"@[0] != "mod_item"@[0]);
    assert("type_item"@[0] != "mod_item"@[0]);
}

// ---------------------------------------------------------------------------
// Items, impls, traits
// ---------------------------------------------------------------------------

/// The strings of `v`, leaving it empty.
pub fn take_strings(v: &mut Vec<String>) -> (r: Vec<String>)
    ensures
        r@ == old(v)@,
        final(v)@.len() == 0,
{
    let mut taken: Vec<String> = Vec::new();
    std::mem::swap(&mut taken, v);
    taken
}

/// Push a function item of an impl or trait (or of the module when
/// `parent` is `None`) with the pending attributes, and its calls.
fn push_function(
    t: &SyntaxTree,
    c: usize,
    path: &str,
    prefix: &str,
    parent: Option<&str>,
    pending: &mut Vec<String>,
    ir: &mut Ir,
)
    requires
        t.wf(),
        c < t.len(),
    ensures
        rust_grows(*old(ir), *final(ir), prefix@, path@),
        rust_extends(
            *old(ir),
            *final(ir),
            fn_out(*t, c as int, prefix@, parent_view(parent), views(old(pending)@)),
            *t,
            path@,
            prefix@,
        ),
        final(pending)@.len() == 0,
{
    let ghost attrs = views(pending@);
    match extract_function(t, c, path, prefix, parent) {
        Some(sym) => {
            let mut sym = sym;
            sym.attributes = take_strings(pending);
            proof {
                lemma_rust_qualified_starts(prefix@, parent_view(parent), sym.name@);
            }
            let ghost qn = sym.qualified_name@;
            extract_calls(t, c, path, sym.qualified_name.as_str(), ir, Ghost(prefix@));
            let ghost before = *ir;
            let ghost sv = sym;
            push_rust_symbol(ir, sym, Ghost(prefix@), Ghost(path@));
            proof {
                lemma_rust_grows_trans(*old(ir), before, *ir, prefix@, path@);
                lemma_pushed_rust_symbol(before, *ir, sv, RustSymSrc::Func(c as int, parent_view(parent), attrs), *t, path@, prefix@);
                lemma_rust_extends_trans(
                    *old(ir),
                    before,
                    *ir,
                    RustOut { syms: seq![], deps: fn_calls(*t, c as int, qn) },
                    RustOut { syms: seq![RustSymSrc::Func(c as int, parent_view(parent), attrs)], deps: seq![] },
                    *t,
                    path@,
                    prefix@,
                );
                let o = fn_out(*t, c as int, prefix@, parent_view(parent), attrs);
                assert(rust_out_cat(
                    RustOut { syms: seq![], deps: fn_calls(*t, c as int, qn) },
                    RustOut { syms: seq![RustSymSrc::Func(c as int, parent_view(parent), attrs)], deps: seq![] },
                ).syms =~= o.syms);
                assert(rust_out_cat(
                    RustOut { syms: seq![], deps: fn_calls(*t, c as int, qn) },
                    RustOut { syms: seq![RustSymSrc::Func(c as int, parent_view(parent), attrs)], deps: seq![] },
                ).deps =~= o.deps);
            }
        },
        None => {
            pending.clear();
            proof {
                lemma_rust_extends_refl(*ir, *t, path@, prefix@);
            }
        },
    }
}

/// Push a named item of kind `k` with the pending attributes.
fn push_item(t: &SyntaxTree, c: usize, path: &str, prefix: &str, k: &str, pending: &mut Vec<String>, ir: &mut Ir)
    requires
        t.wf(),
        c < t.len(),
        is_rust_kind(k@),
    ensures
        rust_grows(*old(ir), *final(ir), prefix@, path@),
        rust_extends(*old(ir), *final(ir), item_out(*t, c as int, k@, views(old(pending)@)), *t, path@, prefix@),
        final(pending)@.len() == 0,
{
    let ghost attrs = views(pending@);
    match extract_item(t, c, path, prefix, k) {
        Some(sym) => {
            let mut sym = sym;
            sym.attributes = take_strings(pending);
            proof {
                lemma_rust_qualified_starts(prefix@, None, sym.name@);
            }
            let ghost sv = sym;
            push_rust_symbol(ir, sym, Ghost(prefix@), Ghost(path@));
            proof {
                lemma_pushed_rust_symbol(*old(ir), *ir, sv, RustSymSrc::Item(c as int, k@, attrs), *t, path@, prefix@);
            }
        },
        None => {
            pending.clear();
            proof {
                lemma_rust_extends_refl(*ir, *t, path@, prefix@);
            }
        },
    }
}

/// The name an impl block gets: `impl Trait for Type` or `impl Type`.
pub open spec fn impl_name_spec(t: SyntaxTree, n: int) -> Seq<char> {
    let ty = match field_text(t, n, "type"@) {
        Some(x) => x,
        None => "unknown"@,
    };
    match field_text(t, n, "trait"@) {
        Some(tr) => "impl "@ + tr + " for "@ + ty,
        None => "impl "@ + ty,
    }
}

/// An impl block: its own symbol, the trait it implements, and its
/// functions, constants and type aliases.
fn extract_impl(t: &SyntaxTree, n: usize, path: &str, prefix: &str, outer_attrs: Vec<String>, ir: &mut Ir)
    requires
        t.wf(),
        n < t.len(),
    ensures
        rust_grows(*old(ir), *final(ir), prefix@, path@),
        rust_extends(*old(ir), *final(ir), impl_out(*t, n as int, prefix@, views(outer_attrs@)), *t, path@, prefix@),
        final(ir).symbols@.len() > old(ir).symbols@.len(),
        final(ir).symbols@[old(ir).symbols@.len() as int].name@ == impl_name_spec(*t, n as int),
{
    let ghost attrs = views(outer_attrs@);
    let self_type = match get_field_text(t, n, "type") {
        Some(x) => x,
        None => owned("unknown"),
    };
    assert(self_type@ == impl_type_spec(*t, n as int));
    let qualified_name = qualify(prefix, None, self_type.as_str());
    let trait_name = get_field_text(t, n, "trait");
    let impl_name = match &trait_name {
        Some(tr) => {
            let mut s = owned("impl ");
            push_str(&mut s, tr.as_str());
            push_str(&mut s, " for ");
            push_str(&mut s, self_type.as_str());
            s
        },
        None => concat("impl ", self_type.as_str()),
    };
    proof {
        lemma_rust_qualified_starts(prefix@, None, self_type@);
        lemma_rust_kinds_distinct();
    }
    let sym = Symbol {
        name: impl_name,
        qualified_name: qualified_name.clone(),
        kind: owned("impl"),
        loc: loc_of(t, n, path),
        visibility: Visibility::Private,
        signature: None,
        parent: None,
        attributes: outer_attrs,
        fields: Vec::new(),
        params: Vec::new(),
        return_type: None,
    };
    let ghost sv = sym;
    push_rust_symbol(ir, sym, Ghost(prefix@), Ghost(path@));
    let ghost first = *ir;
    let ghost me_deps: Seq<RustDepSrc> = if field_text(*t, n as int, "trait"@) is Some {
        seq![RustDepSrc::Implements(n as int)]
    } else {
        seq![]
    };
    let ghost me = RustOut { syms: seq![RustSymSrc::Impl(n as int, attrs)], deps: me_deps };
    proof {
        lemma_pushed_rust_symbol(*old(ir), *ir, sv, RustSymSrc::Impl(n as int, attrs), *t, path@, prefix@);
    }
    match trait_name {
        Some(tr) => {
            let d = Dependency {
                from_qualified: qualified_name,
                to_name: tr,
                kind: DepKind::Implements,
                loc: loc_of(t, n, path),
            };
            let ghost before = *ir;
            let ghost dv = d;
            push_rust_dep(ir, d, Ghost(prefix@), Ghost(path@));
            proof {
                lemma_rust_grows_trans(*old(ir), before, *ir, prefix@, path@);
                lemma_pushed_rust_dep(before, *ir, dv, RustDepSrc::Implements(n as int), *t, path@, prefix@);
                lemma_rust_extends_trans(
                    *old(ir),
                    before,
                    *ir,
                    RustOut { syms: seq![RustSymSrc::Impl(n as int, attrs)], deps: seq![] },
                    RustOut { syms: seq![], deps: seq![RustDepSrc::Implements(n as int)] },
                    *t,
                    path@,
                    prefix@,
                );
                assert(rust_out_cat(
                    RustOut { syms: seq![RustSymSrc::Impl(n as int, attrs)], deps: seq![] },
                    RustOut { syms: seq![], deps: seq![RustDepSrc::Implements(n as int)] },
                ).syms =~= me.syms);
                assert(rust_out_cat(
                    RustOut { syms: seq![RustSymSrc::Impl(n as int, attrs)], deps: seq![] },
                    RustOut { syms: seq![], deps: seq![RustDepSrc::Implements(n as int)] },
                ).deps =~= me.deps);
            }
        },
        None => {
            assert(me =~= RustOut { syms: seq![RustSymSrc::Impl(n as int, attrs)], deps: seq![] });
        },
    }
    assert(rust_extends(*old(ir), *ir, me, *t, path@, prefix@));
    let body = match child_by_field_name(t, n, "body") {
        Some(b) => b,
        None => {
            assert(ir.symbols@[old(ir).symbols@.len() as int] == first.symbols@[old(ir).symbols@.len() as int]);
            return;
        },
    };
    let ghost mid = *ir;
    let mut pending: Vec<String> = Vec::new();
    let cs = &t.nodes[body].children;
    let ghost all = t.children(body as int);
    let ghost sty = self_type@;
    proof {
        lemma_children_after(*t, body as int);
        assert(all.take(0) =~= Seq::<usize>::empty());
        assert(views(pending@) =~= Seq::<Seq<char>>::empty());
        lemma_rust_extends_refl(mid, *t, path@, prefix@);
    }
    let mut i: usize = 0;
    while i < cs.len()
        invariant
            i <= cs.len(),
            t.wf(),
            all == cs@,
            sty == self_type@,
            forall|j: int| 0 <= j < all.len() ==> body < #[trigger] all[j] < t.len(),
            rust_grows(*old(ir), mid, prefix@, path@),
            rust_grows(mid, *ir, prefix@, path@),
            rust_extends(mid, *ir, impl_body_out(*t, all.take(i as int), prefix@, sty).0, *t, path@, prefix@),
            views(pending@) == impl_body_out(*t, all.take(i as int), prefix@, sty).1,
            mid.symbols@.len() > old(ir).symbols@.len(),
            mid.symbols@[old(ir).symbols@.len() as int].name@ == impl_name_spec(*t, n as int),
        decreases cs.len() - i,
    {
        let c = cs[i];
        assert(all[i as int] == c);
        let ghost before = *ir;
        let ghost prev = impl_body_out(*t, all.take(i as int), prefix@, sty);
        let ghost pv = views(pending@);
        proof {
            assert(all.take(i + 1).drop_last() =~= all.take(i as int));
            assert(all.take(i + 1).last() == c);
            lemma_rust_kinds_distinct();
        }
        if kind_is(t, c, "attribute_item") {
            pending.push(node_text(t, c));
            assert(views(pending@) =~= pv.push(t.text(c as int)));
        } else if kind_is(t, c, "function_item") {
            push_function(t, c, path, prefix, Some(self_type.as_str()), &mut pending, ir);
            proof {
                lemma_rust_extends_trans(mid, before, *ir, prev.0, fn_out(*t, c as int, prefix@, Some(sty), pv), *t, path@, prefix@);
                assert(views(pending@) =~= Seq::<Seq<char>>::empty());
            }
        } else if kind_is(t, c, "const_item") {
            push_item(t, c, path, prefix, "const", &mut pending, ir);
            proof {
                lemma_rust_extends_trans(mid, before, *ir, prev.0, item_out(*t, c as int, "const"@, pv), *t, path@, prefix@);
                assert(views(pending@) =~= Seq::<Seq<char>>::empty());
            }
        } else if kind_is(t, c, "type_item") {
            push_item(t, c, path, prefix, "type", &mut pending, ir);
            proof {
                lemma_rust_extends_trans(mid, before, *ir, prev.0, item_out(*t, c as int, "type"@, pv), *t, path@, prefix@);
                assert(views(pending@) =~= Seq::<Seq<char>>::empty());
            }
        }
        proof {
            lemma_rust_grows_trans(mid, before, *ir, prefix@, path@);
        }
        i += 1;
    }
    proof {
        assert(all.take(cs.len() as int) =~= all);
        lemma_rust_grows_trans(*old(ir), mid, *ir, prefix@, path@);
        lemma_rust_extends_trans(
            *old(ir),
            mid,
            *ir,
            me,
            impl_body_out(*t, all, prefix@, sty).0,
            *t,
            path@,
            prefix@,
        );
        assert(ir.symbols@[old(ir).symbols@.len() as int] == mid.symbols@[old(ir).symbols@.len() as int]);
    }
}

/// The functions of a trait that have a default body, as methods of the
/// trait. Anything else between them drops pending attributes.
fn extract_trait_default_methods(t: &SyntaxTree, n: usize, path: &str, prefix: &str, trait_name: &str, ir: &mut Ir)
    requires
        t.wf(),
        n < t.len(),
    ensures
        rust_grows(*old(ir), *final(ir), prefix@, path@),
        rust_extends(
            *old(ir),
            *final(ir),
            match child_in_field(*t, n as int, "body"@) {
                Some(b) => trait_body_out(*t, t.children(b as int), prefix@, trait_name@).0,
                None => rust_out_none(),
            },
            *t,
            path@,
            prefix@,
        ),
{
    let body = match child_by_field_name(t, n, "body") {
        Some(b) => b,
        None => {
            proof {
                lemma_rust_extends_refl(*ir, *t, path@, prefix@);
            }
            return;
        },
    };
    let mut pending: Vec<String> = Vec::new();
    let cs = &t.nodes[body].children;
    let ghost all = t.children(body as int);
    proof {
        lemma_children_after(*t, body as int);
        assert(all.take(0) =~= Seq::<usize>::empty());
        assert(views(pending@) =~= Seq::<Seq<char>>::empty());
        lemma_rust_extends_refl(*ir, *t, path@, prefix@);
    }
    let mut i: usize = 0;
    while i < cs.len()
        invariant
            i <= cs.len(),
            t.wf(),
            all == cs@,
            forall|j: int| 0 <= j < all.len() ==> body < #[trigger] all[j] < t.len(),
            rust_grows(*old(ir), *ir, prefix@, path@),
            rust_extends(*old(ir), *ir, trait_body_out(*t, all.take(i as int), prefix@, trait_name@).0, *t, path@, prefix@),
            views(pending@) == trait_body_out(*t, all.take(i as int), prefix@, trait_name@).1,
        decreases cs.len() - i,
    {
        let c = cs[i];
        assert(all[i as int] == c);
        let ghost before = *ir;
        let ghost prev = trait_body_out(*t, all.take(i as int), prefix@, trait_name@);
        let ghost pv = views(pending@);
        proof {
            assert(all.take(i + 1).drop_last() =~= all.take(i as int));
            assert(all.take(i + 1).last() == c);
            lemma_rust_kinds_distinct();
        }
        if kind_is(t, c, "attribute_item") {
            pending.push(node_text(t, c));
            assert(views(pending@) =~= pv.push(t.text(c as int)));
        } else if kind_is(t, c, "function_item") {
            push_function(t, c, path, prefix, Some(trait_name), &mut pending, ir);
            proof {
                lemma_rust_extends_trans(
                    *old(ir),
                    before,
                    *ir,
                    prev.0,
                    fn_out(*t, c as int, prefix@, Some(trait_name@), pv),
                    *t,
                    path@,
                    prefix@,
                );
                assert(views(pending@) =~= Seq::<Seq<char>>::empty());
            }
        } else {
            pending.clear();
            assert(views(pending@) =~= Seq::<Seq<char>>::empty());
        }
        proof {
            lemma_rust_grows_trans(*old(ir), before, *ir, prefix@, path@);
        }
        i += 1;
    }
    assert(all.take(cs.len() as int) =~= all);
}

/// Extract the items among the children of `n`, attaching each run of
/// attributes to the item that follows it.
fn extract_items(t: &SyntaxTree, n: usize, path: &str, prefix: &str, ir: &mut Ir)
    requires
        t.wf(),
        n < t.len(),
    ensures
        rust_grows(*old(ir), *final(ir), prefix@, path@),
        rust_extends(*old(ir), *final(ir), items_out(*t, t.children(n as int), prefix@).0, *t, path@, prefix@),
{
    let mut pending: Vec<String> = Vec::new();
    let cs = &t.nodes[n].children;
    let ghost all = t.children(n as int);
    proof {
        lemma_children_after(*t, n as int);
        assert(all.take(0) =~= Seq::<usize>::empty());
        assert(views(pending@) =~= Seq::<Seq<char>>::empty());
        lemma_rust_extends_refl(*ir, *t, path@, prefix@);
    }
    let mut i: usize = 0;
    while i < cs.len()
        invariant
            i <= cs.len(),
            t.wf(),
            all == cs@,
            forall|j: int| 0 <= j < all.len() ==> n < #[trigger] all[j] < t.len(),
            rust_grows(*old(ir), *ir, prefix@, path@),
            rust_extends(*old(ir), *ir, items_out(*t, all.take(i as int), prefix@).0, *t, path@, prefix@),
            views(pending@) == items_out(*t, all.take(i as int), prefix@).1,
        decreases cs.len() - i,
    {
        let c = cs[i];
        assert(all[i as int] == c);
        let ghost before = *ir;
        let ghost prev = items_out(*t, all.take(i as int), prefix@);
        let ghost pv = views(pending@);
        proof {
            assert(all.take(i + 1).drop_last() =~= all.take(i as int));
            assert(all.take(i + 1).last() == c);
            lemma_rust_kinds_distinct();
        }
        if kind_is(t, c, "attribute_item") {
            pending.push(node_text(t, c));
            assert(views(pending@) =~= pv.push(t.text(c as int)));
        } else if kind_is(t, c, "function_item") {
            push_function(t, c, path, prefix, None, &mut pending, ir);
            proof {
                lemma_rust_extends_trans(*old(ir), before, *ir, prev.0, fn_out(*t, c as int, prefix@, None, pv), *t, path@, prefix@);
            }
        } else if kind_is(t, c, "struct_item") {
            push_item(t, c, path, prefix, "struct", &mut pending, ir);
            proof {
                lemma_rust_extends_trans(*old(ir), before, *ir, prev.0, item_out(*t, c as int, "struct"@, pv), *t, path@, prefix@);
            }
        } else if kind_is(t, c, "enum_item") {
            push_item(t, c, path, prefix, "enum", &mut pending, ir);
            proof {
                lemma_rust_extends_trans(*old(ir), before, *ir, prev.0, item_out(*t, c as int, "enum"@, pv), *t, path@, prefix@);
            }
        } else if kind_is(t, c, "trait_item") {
            match extract_item(t, c, path, prefix, "trait") {
                Some(sym) => {
                    let mut sym = sym;
                    sym.attributes = take_strings(&mut pending);
                    let trait_name = sym.name.clone();
                    proof {
                        lemma_rust_qualified_starts(prefix@, None, sym.name@);
                    }
                    let ghost sv = sym;
                    push_rust_symbol(ir, sym, Ghost(prefix@), Ghost(path@));
                    let ghost mid = *ir;
                    extract_trait_default_methods(t, c, path, prefix, trait_name.as_str(), ir);
                    proof {
                        lemma_rust_grows_trans(before, mid, *ir, prefix@, path@);
                        let me = RustOut { syms: seq![RustSymSrc::Item(c as int, "trait"@, pv)], deps: seq![] };
                        let rest = match child_in_field(*t, c as int, "body"@) {
                            Some(b) => trait_body_out(*t, t.children(b as int), prefix@, trait_name@).0,
                            None => rust_out_none(),
                        };
                        lemma_pushed_rust_symbol(before, mid, sv, RustSymSrc::Item(c as int, "trait"@, pv), *t, path@, prefix@);
                        lemma_rust_extends_trans(before, mid, *ir, me, rest, *t, path@, prefix@);
                        lemma_rust_out_none_cat(me);
                        assert(rust_out_cat(me, rest) == trait_out(*t, c as int, prefix@, pv));
                        lemma_rust_extends_trans(
                            *old(ir),
                            before,
                            *ir,
                            prev.0,
                            trait_out(*t, c as int, prefix@, pv),
                            *t,
                            path@,
                            prefix@,
                        );
                    }
                },
                None => {
                    pending.clear();
                    proof {
                        lemma_rust_out_none_cat(prev.0);
                    }
                },
            }
            assert(views(pending@) =~= Seq::<Seq<char>>::empty());
        } else if kind_is(t, c, "impl_item") {
            let attrs = take_strings(&mut pending);
            extract_impl(t, c, path, prefix, attrs, ir);
            proof {
                lemma_rust_extends_trans(*old(ir), before, *ir, prev.0, impl_out(*t, c as int, prefix@, pv), *t, path@, prefix@);
            }
            assert(views(pending@) =~= Seq::<Seq<char>>::empty());
        } else if kind_is(t, c, "use_declaration") {
            pending.clear();
            extract_use(t, c, path, prefix, ir);
            proof {
                lemma_rust_extends_trans(*old(ir), before, *ir, prev.0, use_out(*t, c as int), *t, path@, prefix@);
            }
            assert(views(pending@) =~= Seq::<Seq<char>>::empty());
        } else if kind_is(t, c, "const_item") {
            push_item(t, c, path, prefix, "const", &mut pending, ir);
            proof {
                lemma_rust_extends_trans(*old(ir), before, *ir, prev.0, item_out(*t, c as int, "const"@, pv), *t, path@, prefix@);
            }
        } else if kind_is(t, c, "type_item") {
            push_item(t, c, path, prefix, "type", &mut pending, ir);
            proof {
                lemma_rust_extends_trans(*old(ir), before, *ir, prev.0, item_out(*t, c as int, "type"@, pv), *t, path@, prefix@);
            }
        } else if kind_is(t, c, "mod_item") {
            push_item(t, c, path, prefix, "mod", &mut pending, ir);
            proof {
                lemma_rust_extends_trans(*old(ir), before, *ir, prev.0, item_out(*t, c as int, "mod"@, pv), *t, path@, prefix@);
            }
        }
        proof {
            lemma_rust_grows_trans(*old(ir), before, *ir, prefix@, path@);
            assert(views(pending@) == items_out(*t, all.take(i + 1), prefix@).1);
        }
        i += 1;
    }
    assert(all.take(cs.len() as int) =~= all);
}

/// The IR of a Rust file from its syntax tree, under the module path of
/// the file.
pub fn extract_ir(t: &SyntaxTree, path: &str) -> (r: Ir)
    requires
        t.wf(),
        t.len() > 0,
    ensures
        rust_ir_ok(r, rust_module_prefix_spec(path@), path@),
        rust_ir_exact(r, *t, path@),
{
    let prefix = module_prefix_from_path(path);
    let mut ir = Ir::new();
    let ghost start = ir;
    extract_items(t, 0, path, prefix.as_str(), &mut ir);
    proof {
        let out = items_out(*t, t.children(0), prefix@).0;
        assert forall|k: int| 0 <= k < out.syms.len() implies rust_sym_from(#[trigger] ir.symbols@[k], out.syms[k], *t, path@, prefix@) by {
            assert(ir.symbols@[start.symbols@.len() + k] == ir.symbols@[k]);
        }
        assert forall|k: int| 0 <= k < out.deps.len() implies rust_dep_from(#[trigger] ir.dependencies@[k], out.deps[k], *t, path@, prefix@) by {
            assert(ir.dependencies@[start.dependencies@.len() + k] == ir.dependencies@[k]);
        }
    }
    ir
}

/// Parse a Rust source file and return the IR.
pub fn parse_file(path: &str, source: &str) -> (r: Result<Ir, String>)
    ensures
        r matches Ok(ir) ==> rust_ir_ok(ir, rust_module_prefix_spec(path@), path@),
        r is Ok <==> crate::parser::grammar::grammar_loads(crate::parser::grammar::grammar_id(crate::parser::grammar::Grammar::Rust)),
        r matches Ok(ir) ==> exists|tr: SyntaxTree| tr.wf() && tr.len() > 0 && crate::parser::grammar::tree_view(tr) == crate::parser::grammar::ts_layout(
            crate::parser::grammar::grammar_id(crate::parser::grammar::Grammar::Rust),
            source@,
        ) && #[trigger] rust_ir_exact(ir, tr, path@),
        r matches Err(e) ==> exists|te: crate::parser::grammar::TreeError| e@ == crate::parser::grammar::tree_error_spec(te, path@),
{
    match crate::parser::grammar::build_tree(crate::parser::grammar::Grammar::Rust, source) {
        Ok(t) => {
            let ir = extract_ir(&t, path);
            let r = Ok(ir);
            proof {
                let gi = r->Ok_0;
                assert(t.wf() && t.len() > 0 && crate::parser::grammar::tree_view(t) == crate::parser::grammar::ts_layout(crate::parser::grammar::grammar_id(crate::parser::grammar::Grammar::Rust), source@) && rust_ir_exact(gi, t, path@));
            }
            r
        },
        Err(e) => {
            let ghost te = e;
            let m = crate::parser::grammar::tree_error_message(e, path);
            assert(m@ == crate::parser::grammar::tree_error_spec(te, path@));
            Err(m)
        },
    }
}

} // verus!

verus! {

/// An item's visibility follows its `visibility_modifier` child: one whose
/// text mentions `crate` (`pub(crate)`) gives crate visibility, any other
/// (`pub`, `pub(super)`, ...) public, and none private. The three cases give
/// three different visibilities.
#[verifier::spinoff_prover]
pub proof fn lemma_rust_visibility_cases(t: SyntaxTree, n: int)
    ensures
        rust_visibility_spec(t, n) == Visibility::Crate <==> (child_of_kind(t, n, "visibility_modifier"@) is Some
            && exists|i: int|
            0 <= i && i + 5 <= t.text(child_of_kind(t, n, "visibility_modifier"@)->Some_0 as int).len()
                && #[trigger] t.text(child_of_kind(t, n, "visibility_modifier"@)->Some_0 as int).subrange(i, i + 5)
                == "crate"@),
        rust_visibility_spec(t, n) == Visibility::Public <==> (child_of_kind(t, n, "visibility_modifier"@) is Some
            && !exists|i: int|
            0 <= i && i + 5 <= t.text(child_of_kind(t, n, "visibility_modifier"@)->Some_0 as int).len()
                && #[trigger] t.text(child_of_kind(t, n, "visibility_modifier"@)->Some_0 as int).subrange(i, i + 5)
                == "crate"@),
        rust_visibility_spec(t, n) == Visibility::Private <==> child_of_kind(t, n, "visibility_modifier"@) is None,
{
    reveal_strlit("crate");
    match child_of_kind(t, n, "visibility_modifier"@) {
        Some(v) => {
            let x = t.text(v as int);
            if contains(x, "crate"@) {
                let i = choose|i: int| crate::text::occurs_at(x, "crate"@, i);
                assert(x.subrange(i, i + 5) == "crate"@);
            }
            if exists|i: int| 0 <= i && i + 5 <= x.len() && #[trigger] x.subrange(i, i + 5) == "crate"@ {
                let i = choose|i: int| 0 <= i && i + 5 <= x.len() && #[trigger] x.subrange(i, i + 5) == "crate"@;
                assert(crate::text::occurs_at(x, "crate"@, i));
            }
        },
        None => {},
    }
}

} // verus!
