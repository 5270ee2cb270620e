//! Go conventions: exported names start with an upper-case letter, and
//! qualified names are `package.Name`.

use vstd::prelude::*;

use crate::ir::types::{DepKind, Dependency, Field, Ir, Param, SourceLoc, Symbol, Visibility};
use crate::parser::common::{fields_view, params_view};
use crate::parser::tree::{
    child_in_field, child_of_kind, child_by_field_name, find_child_by_kind, is_loc_of, kind_is,
    lemma_children_after, loc_of, node_text, texts_of_kind, SyntaxTree,
};
use crate::split::{
    first_index, first_index_exec, trim_matches, trim_matches_spec, trim_start_char,
    trim_start_matches,
};
use crate::text::{
    char_is_uppercase, chars_of, is_uppercase, owned, push_str, rfind_char, string_of, str_eq,
    trim, trim_str,
};

verus! {

/// Public when the first character is upper-case.
pub open spec fn go_visibility_spec(name: Seq<char>) -> Visibility {
    if name.len() > 0 && is_uppercase(name[0]) {
        Visibility::Public
    } else {
        Visibility::Private
    }
}

/// Go visibility: uppercase first letter = Public, lowercase = Private.
pub fn go_visibility(name: &str) -> (r: Visibility)
    ensures
        r == go_visibility_spec(name@),
{
    let v = chars_of(name);
    if v.len() > 0 && char_is_uppercase(v[0]) {
        Visibility::Public
    } else {
        Visibility::Private
    }
}

/// `prefix.name`, or `name` alone without a prefix.
pub open spec fn qualified_spec(prefix: Seq<char>, name: Seq<char>) -> Seq<char> {
    if prefix.len() == 0 {
        name
    } else {
        prefix + "."@ + name
    }
}

/// The package-qualified name of a declaration.
pub fn qualified(prefix: &str, name: &str) -> (r: String)
    ensures
        r@ == qualified_spec(prefix@, name@),
{
    if prefix.is_empty() {
        owned(name)
    } else {
        let mut r = owned(prefix);
        push_str(&mut r, ".");
        push_str(&mut r, name);
        r
    }
}


// ---------------------------------------------------------------------------
// Views of the extracted values
// ---------------------------------------------------------------------------

// ---------------------------------------------------------------------------
// Parameters
// ---------------------------------------------------------------------------

/// Node kinds that spell a type.
pub open spec fn is_type_kind(k: Seq<char>) -> bool {
    ||| k == "type_identifier"@
    ||| k == "pointer_type"@
    ||| k == "array_type"@
    ||| k == "slice_type"@
    ||| k == "map_type"@
    ||| k == "channel_type"@
    ||| k == "function_type"@
    ||| k == "interface_type"@
    ||| k == "struct_type"@
    ||| k == "qualified_type"@
    ||| k == "generic_type"@
    ||| k == "negated_type"@
}

/// Whether a node kind spells a type.
pub fn is_type_node(k: &str) -> (r: bool)
    ensures
        r == is_type_kind(k@),
{
    str_eq(k, "type_identifier") || str_eq(k, "pointer_type") || str_eq(k, "array_type")
        || str_eq(k, "slice_type") || str_eq(k, "map_type") || str_eq(k, "channel_type")
        || str_eq(k, "function_type") || str_eq(k, "interface_type") || str_eq(k, "struct_type")
        || str_eq(k, "qualified_type") || str_eq(k, "generic_type") || str_eq(k, "negated_type")
}

/// The text of the last of the nodes `cs` that spells a type; empty if none.
pub open spec fn last_type_text(t: SyntaxTree, cs: Seq<usize>) -> Seq<char>
    decreases cs.len(),
{
    if cs.len() == 0 {
        seq![]
    } else if is_type_kind(t.kind(cs.last() as int)) {
        t.text(cs.last() as int)
    } else {
        last_type_text(t, cs.drop_last())
    }
}

/// The parameters one `parameter_declaration` declares: one per name, all
/// of its type; a lone type is an unnamed parameter.
pub open spec fn param_decl_spec(t: SyntaxTree, n: int) -> Seq<(Seq<char>, Seq<char>)> {
    let names = texts_of_kind(t, t.children(n), "identifier"@);
    let ty = last_type_text(t, t.children(n));
    if names.len() == 0 {
        if ty.len() == 0 {
            seq![]
        } else {
            seq![(seq![], ty)]
        }
    } else {
        names.map_values(|nm: Seq<char>| (nm, ty))
    }
}

/// The parameters declared by the `parameter_declaration` nodes among `cs`.
pub open spec fn params_in(t: SyntaxTree, cs: Seq<usize>) -> Seq<(Seq<char>, Seq<char>)>
    decreases cs.len(),
{
    if cs.len() == 0 {
        seq![]
    } else {
        let r = params_in(t, cs.drop_last());
        if t.kind(cs.last() as int) == "parameter_declaration"@ {
            r + param_decl_spec(t, cs.last() as int)
        } else {
            r
        }
    }
}

/// The parameters of the list in field `f` of node `n`.
pub open spec fn param_list_spec(t: SyntaxTree, n: int, f: Seq<char>) -> Seq<(Seq<char>, Seq<char>)> {
    match child_in_field(t, n, f) {
        Some(l) => params_in(t, t.children(l as int)),
        None => seq![],
    }
}

/// Texts of the children of `n` of kind `k`, and the text of the last child
/// that spells a type (a field type when `fields`).
fn names_and_type(t: &SyntaxTree, n: usize, k: &str, fields: bool) -> (r: (Vec<String>, String))
    requires
        t.wf(),
        n < t.len(),
    ensures
        crate::text::views(r.0@) == texts_of_kind(*t, t.children(n as int), k@),
        !fields ==> r.1@ == last_type_text(*t, t.children(n as int)),
        fields ==> r.1@ == last_field_type_text(*t, t.children(n as int)),
{
    let cs = &t.nodes[n].children;
    let ghost all = t.children(n as int);
    let mut names: Vec<String> = Vec::new();
    let mut ty = String::new();
    let mut i: usize = 0;
    proof {
        lemma_children_after(*t, n as int);
    }
    assert(crate::text::views(names@) =~= texts_of_kind(*t, all.take(0), k@));
    while i < cs.len()
        invariant
            i <= cs.len(),
            t.wf(),
            n < t.len(),
            all == cs@,
            forall|j: int| 0 <= j < all.len() ==> n < #[trigger] all[j] < t.len(),
            crate::text::views(names@) == texts_of_kind(*t, all.take(i as int), k@),
            !fields ==> ty@ == last_type_text(*t, all.take(i as int)),
            fields ==> ty@ == last_field_type_text(*t, all.take(i as int)),
        decreases cs.len() - i,
    {
        proof {
            crate::text::lemma_take_push(all, i as int);
        }
        let c = cs[i];
        assert(all[i as int] == c);
        if kind_is(t, c, k) {
            let ghost before = crate::text::views(names@);
            names.push(node_text(t, c));
            assert(crate::text::views(names@) =~= before.push(t.text(c as int)));
        }
        let is_ty = if fields {
            is_field_type_node(t.nodes[c].kind.as_str())
        } else {
            is_type_node(t.nodes[c].kind.as_str())
        };
        if is_ty {
            ty = node_text(t, c);
        }
        i += 1;
    }
    assert(all.take(cs.len() as int) =~= all);
    (names, ty)
}

fn param_decl(t: &SyntaxTree, n: usize, params: &mut Vec<Param>)
    requires
        t.wf(),
        n < t.len(),
    ensures
        params_view(final(params)@) == params_view(old(params)@) + param_decl_spec(*t, n as int),
{
    let (names, ty) = names_and_type(t, n, "identifier", false);
    let ghost base = params_view(params@);
    let ghost nv = crate::text::views(names@);
    if names.len() == 0 {
        if !ty.as_str().is_empty() {
            params.push(Param { name: String::new(), type_str: ty });
            assert(params_view(params@) =~= base + param_decl_spec(*t, n as int));
        } else {
            assert(params_view(params@) =~= base + param_decl_spec(*t, n as int));
        }
    } else {
        let mut i: usize = 0;
        while i < names.len()
            invariant
                i <= names.len(),
                nv == crate::text::views(names@),
                params_view(params@) == base + nv.take(i as int).map_values(|nm: Seq<char>| (nm, ty@)),
            decreases names.len() - i,
        {
            let ghost before = params_view(params@);
            params.push(Param { name: names[i].clone(), type_str: ty.clone() });
            assert(nv.take(i + 1).map_values(|nm: Seq<char>| (nm, ty@)) =~= nv.take(i as int).map_values(
                |nm: Seq<char>| (nm, ty@),
            ).push((nv[i as int], ty@)));
            assert(params_view(params@) =~= before.push((names@[i as int]@, ty@)));
            i += 1;
        }
        assert(nv.take(names.len() as int) =~= nv);
    }
}

/// The parameters declared by the `parameter_declaration` children of `l`.
fn params_of_list(t: &SyntaxTree, l: usize) -> (r: Vec<Param>)
    requires
        t.wf(),
        l < t.len(),
    ensures
        params_view(r@) == params_in(*t, t.children(l as int)),
{
    let cs = &t.nodes[l].children;
    let ghost all = t.children(l as int);
    let mut params: Vec<Param> = Vec::new();
    let mut i: usize = 0;
    proof {
        lemma_children_after(*t, l as int);
    }
    assert(params_view(params@) =~= params_in(*t, all.take(0)));
    while i < cs.len()
        invariant
            i <= cs.len(),
            t.wf(),
            l < t.len(),
            all == cs@,
            forall|j: int| 0 <= j < all.len() ==> l < #[trigger] all[j] < t.len(),
            params_view(params@) == params_in(*t, all.take(i as int)),
        decreases cs.len() - i,
    {
        proof {
            crate::text::lemma_take_push(all, i as int);
        }
        let c = cs[i];
        assert(all[i as int] == c);
        if kind_is(t, c, "parameter_declaration") {
            param_decl(t, c, &mut params);
        }
        i += 1;
    }
    assert(all.take(cs.len() as int) =~= all);
    params
}

/// The parameters of the list in field `f` of node `n`.
fn param_list(t: &SyntaxTree, n: usize, f: &str) -> (r: Vec<Param>)
    requires
        t.wf(),
        n < t.len(),
    ensures
        params_view(r@) == param_list_spec(*t, n as int, f@),
{
    match child_by_field_name(t, n, f) {
        Some(l) => params_of_list(t, l),
        None => {
            let v: Vec<Param> = Vec::new();
            assert(params_view(v@) =~= Seq::<(Seq<char>, Seq<char>)>::empty());
            v
        },
    }
}

// ---------------------------------------------------------------------------
// Struct fields
// ---------------------------------------------------------------------------

/// Node kinds that spell the type of a struct field.
pub open spec fn is_field_type_kind(k: Seq<char>) -> bool {
    is_type_kind(k) && k != "negated_type"@
}

/// Whether a node kind spells the type of a struct field.
pub fn is_field_type_node(k: &str) -> (r: bool)
    ensures
        r == is_field_type_kind(k@),
{
    is_type_node(k) && !str_eq(k, "negated_type")
}

/// The text of the last of the nodes `cs` that spells a field type.
pub open spec fn last_field_type_text(t: SyntaxTree, cs: Seq<usize>) -> Seq<char>
    decreases cs.len(),
{
    if cs.len() == 0 {
        seq![]
    } else if is_field_type_kind(t.kind(cs.last() as int)) {
        t.text(cs.last() as int)
    } else {
        last_field_type_text(t, cs.drop_last())
    }
}

/// The name an embedded field takes: its type without leading `*` and
/// without any package qualifier.
pub open spec fn embed_name_spec(ty: Seq<char>) -> Seq<char> {
    let t1 = trim_start_char(ty, '*');
    match rfind_char(t1, '.') {
        Some(i) => t1.skip(i + 1),
        None => t1,
    }
}

/// The fields one `field_declaration` declares.
pub open spec fn field_decl_spec(t: SyntaxTree, n: int) -> Seq<(Seq<char>, Seq<char>, Visibility)> {
    let names = texts_of_kind(t, t.children(n), "field_identifier"@);
    let ty = last_field_type_text(t, t.children(n));
    if names.len() == 0 {
        let e = embed_name_spec(ty);
        if e.len() == 0 {
            seq![]
        } else {
            seq![(e, ty, go_visibility_spec(e))]
        }
    } else {
        names.map_values(|nm: Seq<char>| (nm, ty, go_visibility_spec(nm)))
    }
}

/// The fields declared by the `field_declaration` nodes among `cs`.
pub open spec fn fields_in(t: SyntaxTree, cs: Seq<usize>) -> Seq<(Seq<char>, Seq<char>, Visibility)>
    decreases cs.len(),
{
    if cs.len() == 0 {
        seq![]
    } else {
        let r = fields_in(t, cs.drop_last());
        if t.kind(cs.last() as int) == "field_declaration"@ {
            r + field_decl_spec(t, cs.last() as int)
        } else {
            r
        }
    }
}

/// The fields of a `struct_type` node.
pub open spec fn struct_fields_spec(t: SyntaxTree, n: int) -> Seq<(Seq<char>, Seq<char>, Visibility)> {
    match child_of_kind(t, n, "field_declaration_list"@) {
        Some(l) => fields_in(t, t.children(l as int)),
        None => seq![],
    }
}

/// The name an embedded field takes.
pub fn embed_name(ty: &str) -> (r: String)
    ensures
        r@ == embed_name_spec(ty@),
{
    let t1 = trim_start_matches(ty, '*');
    let v = chars_of(t1.as_str());
    match crate::paths::rfind_char_exec(&v, '.') {
        Some(i) => {
            let r = string_of(&v, i + 1, v.len());
            assert(r@ =~= t1@.skip(i + 1));
            r
        },
        None => t1,
    }
}

fn field_decl(t: &SyntaxTree, n: usize, fields: &mut Vec<Field>)
    requires
        t.wf(),
        n < t.len(),
    ensures
        fields_view(final(fields)@) == fields_view(old(fields)@) + field_decl_spec(*t, n as int),
{
    let (names, ty) = names_and_type(t, n, "field_identifier", true);
    let ghost base = fields_view(fields@);
    let ghost nv = crate::text::views(names@);
    if names.len() == 0 {
        let e = embed_name(ty.as_str());
        if !e.as_str().is_empty() {
            let vis = go_visibility(e.as_str());
            fields.push(Field { name: e, type_str: ty, visibility: vis });
            assert(fields_view(fields@) =~= base + field_decl_spec(*t, n as int));
        } else {
            assert(fields_view(fields@) =~= base + field_decl_spec(*t, n as int));
        }
    } else {
        let mut i: usize = 0;
        while i < names.len()
            invariant
                i <= names.len(),
                nv == crate::text::views(names@),
                fields_view(fields@) == base + nv.take(i as int).map_values(
                    |nm: Seq<char>| (nm, ty@, go_visibility_spec(nm)),
                ),
            decreases names.len() - i,
        {
            let ghost before = fields_view(fields@);
            let vis = go_visibility(names[i].as_str());
            fields.push(Field { name: names[i].clone(), type_str: ty.clone(), visibility: vis });
            assert(nv.take(i + 1).map_values(|nm: Seq<char>| (nm, ty@, go_visibility_spec(nm))) =~= nv.take(
                i as int,
            ).map_values(|nm: Seq<char>| (nm, ty@, go_visibility_spec(nm))).push(
                (nv[i as int], ty@, go_visibility_spec(nv[i as int])),
            ));
            assert(fields_view(fields@) =~= before.push((names@[i as int]@, ty@, vis)));
            i += 1;
        }
        assert(nv.take(names.len() as int) =~= nv);
    }
}

/// The fields of a `struct_type` node.
pub fn struct_fields(t: &SyntaxTree, n: usize) -> (r: Vec<Field>)
    requires
        t.wf(),
        n < t.len(),
    ensures
        fields_view(r@) == struct_fields_spec(*t, n as int),
{
    let mut fields: Vec<Field> = Vec::new();
    assert(fields_view(fields@) =~= Seq::<(Seq<char>, Seq<char>, Visibility)>::empty());
    match find_child_by_kind(t, n, "field_declaration_list") {
        None => fields,
        Some(l) => {
            let cs = &t.nodes[l].children;
            let ghost all = t.children(l as int);
            let mut i: usize = 0;
            proof {
                lemma_children_after(*t, l as int);
            }
            assert(fields_view(fields@) =~= fields_in(*t, all.take(0)));
            while i < cs.len()
                invariant
                    i <= cs.len(),
                    t.wf(),
                    l < t.len(),
                    all == cs@,
                    forall|j: int| 0 <= j < all.len() ==> l < #[trigger] all[j] < t.len(),
                    fields_view(fields@) == fields_in(*t, all.take(i as int)),
                decreases cs.len() - i,
            {
                proof {
                    crate::text::lemma_take_push(all, i as int);
                }
                let c = cs[i];
                assert(all[i as int] == c);
                if kind_is(t, c, "field_declaration") {
                    field_decl(t, c, &mut fields);
                }
                i += 1;
            }
            assert(all.take(cs.len() as int) =~= all);
            fields
        },
    }
}


// ---------------------------------------------------------------------------
// Signatures, result types, receivers
// ---------------------------------------------------------------------------

/// The text before the first `{`, trimmed; the whole text trimmed if none.
pub open spec fn signature_spec(text: Seq<char>) -> Seq<char> {
    match first_index(text, '{') {
        Some(p) => trim(text.take(p)),
        None => trim(text),
    }
}

/// The declaration's text up to its body.
pub fn build_signature(t: &SyntaxTree, n: usize) -> (r: String)
    requires
        n < t.len(),
    ensures
        r@ == signature_spec(t.text(n as int)),
{
    let v = chars_of(t.nodes[n].text.as_str());
    match first_index_exec(&v, '{') {
        Some(p) => {
            let head = string_of(&v, 0, p);
            assert(head@ =~= v@.take(p as int));
            trim_str(head.as_str())
        },
        None => trim_str(t.nodes[n].text.as_str()),
    }
}

/// The trimmed text of the `result` field, unless missing or empty.
pub open spec fn result_type_spec(t: SyntaxTree, n: int) -> Option<Seq<char>> {
    match child_in_field(t, n, "result"@) {
        Some(c) => if trim(t.text(c as int)).len() == 0 {
            None
        } else {
            Some(trim(t.text(c as int)))
        },
        None => None,
    }
}

/// The declared result type of a function or method.
pub fn result_type(t: &SyntaxTree, n: usize) -> (r: Option<String>)
    requires
        t.wf(),
        n < t.len(),
    ensures
        match r {
            Some(x) => result_type_spec(*t, n as int) == Some(x@),
            None => result_type_spec(*t, n as int) is None,
        },
{
    match child_by_field_name(t, n, "result") {
        Some(c) => {
            let text = trim_str(t.nodes[c].text.as_str());
            if text.as_str().is_empty() {
                None
            } else {
                Some(text)
            }
        },
        None => None,
    }
}

/// The receiver type named by the first `parameter_declaration` among `cs`
/// that names one: `*T` or `T`.
pub open spec fn receiver_in(t: SyntaxTree, cs: Seq<usize>) -> Option<Seq<char>>
    decreases cs.len(),
{
    if cs.len() == 0 {
        None
    } else {
        let c = cs[0] as int;
        let ptr_id = match child_of_kind(t, c, "pointer_type"@) {
            Some(p) => child_of_kind(t, p as int, "type_identifier"@),
            None => None,
        };
        if t.kind(c) == "parameter_declaration"@ && ptr_id is Some {
            Some(t.text(ptr_id->0 as int))
        } else if t.kind(c) == "parameter_declaration"@ && child_of_kind(t, c, "type_identifier"@) is Some {
            Some(t.text(child_of_kind(t, c, "type_identifier"@)->0 as int))
        } else {
            receiver_in(t, cs.drop_first())
        }
    }
}

/// The receiver type of a method: `func (c *Config) Name()` → `Config`.
pub open spec fn receiver_spec(t: SyntaxTree, n: int) -> Option<Seq<char>> {
    match child_in_field(t, n, "receiver"@) {
        Some(r) => receiver_in(t, t.children(r as int)),
        None => None,
    }
}

/// The type named by a receiver parameter, if it names one.
fn receiver_param_type(t: &SyntaxTree, c: usize) -> (r: Option<String>)
    requires
        t.wf(),
        c < t.len(),
    ensures
        match r {
            Some(x) => {
                let ptr_id = match child_of_kind(*t, c as int, "pointer_type"@) {
                    Some(p) => child_of_kind(*t, p as int, "type_identifier"@),
                    None => None,
                };
                if ptr_id is Some {
                    x@ == t.text(ptr_id->0 as int)
                } else {
                    child_of_kind(*t, c as int, "type_identifier"@) is Some && x@ == t.text(
                        child_of_kind(*t, c as int, "type_identifier"@)->0 as int,
                    )
                }
            },
            None => {
                &&& (match child_of_kind(*t, c as int, "pointer_type"@) {
                    Some(p) => child_of_kind(*t, p as int, "type_identifier"@),
                    None => None,
                }) is None
                &&& child_of_kind(*t, c as int, "type_identifier"@) is None
            },
        },
{
    match find_child_by_kind(t, c, "pointer_type") {
        Some(p) => {
            match find_child_by_kind(t, p, "type_identifier") {
                Some(ti) => {
                    return Some(node_text(t, ti));
                },
                None => {},
            }
        },
        None => {},
    }
    match find_child_by_kind(t, c, "type_identifier") {
        Some(ti) => Some(node_text(t, ti)),
        None => None,
    }
}

/// Extract the receiver type name from a method_declaration.
pub fn receiver_type(t: &SyntaxTree, n: usize) -> (r: Option<String>)
    requires
        t.wf(),
        n < t.len(),
    ensures
        match r {
            Some(x) => receiver_spec(*t, n as int) == Some(x@),
            None => receiver_spec(*t, n as int) is None,
        },
{
    let recv = match child_by_field_name(t, n, "receiver") {
        Some(r) => r,
        None => {
            return None;
        },
    };
    let cs = &t.nodes[recv].children;
    let ghost all = t.children(recv as int);
    proof {
        lemma_children_after(*t, recv as int);
    }
    let mut i: usize = 0;
    assert(all.skip(0) =~= all);
    while i < cs.len()
        invariant
            i <= cs.len(),
            t.wf(),
            recv < t.len(),
            all == cs@,
            forall|j: int| 0 <= j < all.len() ==> recv < #[trigger] all[j] < t.len(),
            receiver_spec(*t, n as int) == receiver_in(*t, all.skip(i as int)),
        decreases cs.len() - i,
    {
        assert(all.skip(i as int)[0] == all[i as int]);
        assert(all.skip(i as int).drop_first() =~= all.skip(i + 1));
        let c = cs[i];
        assert(all[i as int] == c);
        if kind_is(t, c, "parameter_declaration") {
            match receiver_param_type(t, c) {
                Some(x) => {
                    return Some(x);
                },
                None => {},
            }
        }
        i += 1;
    }
    assert(all.skip(i as int) =~= Seq::<usize>::empty());
    None
}

// ---------------------------------------------------------------------------
// Symbols
// ---------------------------------------------------------------------------

/// What a function declaration yields.
pub open spec fn is_function_symbol(s: Symbol, t: SyntaxTree, n: int, path: Seq<char>, prefix: Seq<char>) -> bool {
    &&& child_in_field(t, n, "name"@) matches Some(nm) && s.name@ == t.text(nm as int)
    &&& s.qualified_name@ == qualified_spec(prefix, s.name@)
    &&& s.kind@ == "func"@
    &&& is_loc_of(s.loc, t, n, path)
    &&& s.visibility == go_visibility_spec(s.name@)
    &&& s.signature matches Some(sig) && sig@ == signature_spec(t.text(n))
    &&& s.parent is None
    &&& s.attributes@.len() == 0
    &&& s.fields@.len() == 0
    &&& params_view(s.params@) == param_list_spec(t, n, "parameters"@)
    &&& match s.return_type {
        Some(x) => result_type_spec(t, n) == Some(x@),
        None => result_type_spec(t, n) is None,
    }
}

/// A function declaration as a symbol; `None` without a name.
pub fn extract_function(t: &SyntaxTree, n: usize, path: &str, prefix: &str) -> (r: Option<Symbol>)
    requires
        t.wf(),
        n < t.len(),
    ensures
        r is Some <==> child_in_field(*t, n as int, "name"@) is Some,
        r matches Some(s) ==> is_function_symbol(s, *t, n as int, path@, prefix@),
{
    let nm = match child_by_field_name(t, n, "name") {
        Some(c) => c,
        None => {
            return None;
        },
    };
    let name = node_text(t, nm);
    let params = param_list(t, n, "parameters");
    let return_type = result_type(t, n);
    let sig = build_signature(t, n);
    Some(Symbol {
        qualified_name: qualified(prefix, name.as_str()),
        visibility: go_visibility(name.as_str()),
        name,
        kind: owned("func"),
        loc: loc_of(t, n, path),
        signature: Some(sig),
        parent: None,
        attributes: Vec::new(),
        fields: Vec::new(),
        params,
        return_type,
    })
}

/// The qualified name of a method: under its receiver type when it has one.
pub open spec fn method_qualified_spec(prefix: Seq<char>, receiver: Option<Seq<char>>, name: Seq<char>) -> Seq<char> {
    let parent = match receiver {
        Some(r) => r,
        None => seq![],
    };
    if parent.len() == 0 {
        qualified_spec(prefix, name)
    } else {
        qualified_spec(prefix, parent) + "."@ + name
    }
}

/// What a method declaration yields.
pub open spec fn is_method_symbol(s: Symbol, t: SyntaxTree, n: int, path: Seq<char>, prefix: Seq<char>) -> bool {
    &&& child_in_field(t, n, "name"@) matches Some(nm) && s.name@ == t.text(nm as int)
    &&& s.qualified_name@ == method_qualified_spec(prefix, receiver_spec(t, n), s.name@)
    &&& s.kind@ == "method"@
    &&& is_loc_of(s.loc, t, n, path)
    &&& s.visibility == go_visibility_spec(s.name@)
    &&& s.signature matches Some(sig) && sig@ == signature_spec(t.text(n))
    &&& match s.parent {
        Some(p) => receiver_spec(t, n) == Some(p@),
        None => receiver_spec(t, n) is None,
    }
    &&& s.attributes@.len() == 0
    &&& s.fields@.len() == 0
    &&& params_view(s.params@) == param_list_spec(t, n, "parameters"@)
    &&& match s.return_type {
        Some(x) => result_type_spec(t, n) == Some(x@),
        None => result_type_spec(t, n) is None,
    }
}

/// A method declaration as a symbol; `None` without a name.
pub fn extract_method(t: &SyntaxTree, n: usize, path: &str, prefix: &str) -> (r: Option<Symbol>)
    requires
        t.wf(),
        n < t.len(),
    ensures
        r is Some <==> child_in_field(*t, n as int, "name"@) is Some,
        r matches Some(s) ==> is_method_symbol(s, *t, n as int, path@, prefix@),
{
    let nm = match child_by_field_name(t, n, "name") {
        Some(c) => c,
        None => {
            return None;
        },
    };
    let name = node_text(t, nm);
    let receiver = receiver_type(t, n);
    let params = param_list(t, n, "parameters");
    let return_type = result_type(t, n);
    let sig = build_signature(t, n);
    let qualified_name = match &receiver {
        Some(p) => {
            if p.as_str().is_empty() {
                qualified(prefix, name.as_str())
            } else {
                let mut q = qualified(prefix, p.as_str());
                push_str(&mut q, ".");
                push_str(&mut q, name.as_str());
                q
            }
        },
        None => qualified(prefix, name.as_str()),
    };
    Some(Symbol {
        qualified_name,
        visibility: go_visibility(name.as_str()),
        name,
        kind: owned("method"),
        loc: loc_of(t, n, path),
        signature: Some(sig),
        parent: receiver,
        attributes: Vec::new(),
        fields: Vec::new(),
        params,
        return_type,
    })
}


// ---------------------------------------------------------------------------
// Interface methods
// ---------------------------------------------------------------------------

/// The return type of an interface method: a second parameter list, or the
/// first type node, after its parameter list.
pub open spec fn elem_return(t: SyntaxTree, cs: Seq<usize>, found: bool) -> Option<Seq<char>>
    decreases cs.len(),
{
    if cs.len() == 0 {
        None
    } else {
        let c = cs[0] as int;
        if t.kind(c) == "parameter_list"@ {
            if found {
                Some(t.text(c))
            } else {
                elem_return(t, cs.drop_first(), true)
            }
        } else if found && is_type_kind(t.kind(c)) {
            Some(t.text(c))
        } else {
            elem_return(t, cs.drop_first(), found)
        }
    }
}

/// The parameters of an interface method.
pub open spec fn elem_params(t: SyntaxTree, n: int) -> Seq<(Seq<char>, Seq<char>)> {
    match child_of_kind(t, n, "parameter_list"@) {
        Some(l) => params_in(t, t.children(l as int)),
        None => seq![],
    }
}

/// What a `method_elem` of an interface yields.
pub open spec fn is_method_elem_symbol(
    s: Symbol,
    t: SyntaxTree,
    n: int,
    path: Seq<char>,
    prefix: Seq<char>,
    parent: Seq<char>,
) -> bool {
    &&& child_of_kind(t, n, "field_identifier"@) matches Some(nm) && s.name@ == t.text(nm as int)
    &&& s.qualified_name@ == qualified_spec(prefix, parent) + "."@ + s.name@
    &&& s.kind@ == "method"@
    &&& is_loc_of(s.loc, t, n, path)
    &&& s.visibility == Visibility::Public
    &&& s.signature matches Some(sig) && sig@ == trim(t.text(n))
    &&& s.parent matches Some(p) && p@ == parent
    &&& s.attributes@.len() == 0
    &&& s.fields@.len() == 0
    &&& params_view(s.params@) == elem_params(t, n)
    &&& match s.return_type {
        Some(x) => elem_return(t, t.children(n), false) == Some(x@),
        None => elem_return(t, t.children(n), false) is None,
    }
}

fn elem_return_type(t: &SyntaxTree, n: usize) -> (r: Option<String>)
    requires
        t.wf(),
        n < t.len(),
    ensures
        match r {
            Some(x) => elem_return(*t, t.children(n as int), false) == Some(x@),
            None => elem_return(*t, t.children(n as int), false) is None,
        },
{
    let cs = &t.nodes[n].children;
    let ghost all = t.children(n as int);
    proof {
        lemma_children_after(*t, n as int);
    }
    let mut found = false;
    let mut i: usize = 0;
    assert(all.skip(0) =~= all);
    while i < cs.len()
        invariant
            i <= cs.len(),
            t.wf(),
            n < t.len(),
            all == cs@,
            all == t.children(n as int),
            forall|j: int| 0 <= j < all.len() ==> n < #[trigger] all[j] < t.len(),
            elem_return(*t, all, false) == elem_return(*t, all.skip(i as int), found),
        decreases cs.len() - i,
    {
        assert(all.skip(i as int)[0] == all[i as int]);
        assert(all.skip(i as int).drop_first() =~= all.skip(i + 1));
        let c = cs[i];
        assert(all[i as int] == c);
        if kind_is(t, c, "parameter_list") {
            if found {
                return Some(node_text(t, c));
            }
            found = true;
        } else if found && is_type_node(t.nodes[c].kind.as_str()) {
            return Some(node_text(t, c));
        }
        i += 1;
    }
    assert(all.skip(i as int) =~= Seq::<usize>::empty());
    None
}

/// A method of an interface as a symbol; `None` without a name.
pub fn extract_method_elem(t: &SyntaxTree, n: usize, path: &str, prefix: &str, parent: &str) -> (r: Option<Symbol>)
    requires
        t.wf(),
        n < t.len(),
    ensures
        r is Some <==> child_of_kind(*t, n as int, "field_identifier"@) is Some,
        r matches Some(s) ==> is_method_elem_symbol(s, *t, n as int, path@, prefix@, parent@),
{
    let nm = match find_child_by_kind(t, n, "field_identifier") {
        Some(c) => c,
        None => {
            return None;
        },
    };
    let name = node_text(t, nm);
    let params = match find_child_by_kind(t, n, "parameter_list") {
        Some(l) => params_of_list(t, l),
        None => {
            let v: Vec<Param> = Vec::new();
            assert(params_view(v@) =~= Seq::<(Seq<char>, Seq<char>)>::empty());
            v
        },
    };
    let return_type = elem_return_type(t, n);
    let sig = trim_str(t.nodes[n].text.as_str());
    let mut q = qualified(prefix, parent);
    push_str(&mut q, ".");
    push_str(&mut q, name.as_str());
    Some(Symbol {
        name,
        qualified_name: q,
        kind: owned("method"),
        loc: loc_of(t, n, path),
        visibility: Visibility::Public,
        signature: Some(sig),
        parent: Some(owned(parent)),
        attributes: Vec::new(),
        fields: Vec::new(),
        params,
        return_type,
    })
}

// ---------------------------------------------------------------------------
// What every extracted symbol and dependency satisfies
// ---------------------------------------------------------------------------

/// The symbol kinds the Go parser emits.
pub open spec fn is_go_kind(k: Seq<char>) -> bool {
    ||| k == "func"@
    ||| k == "method"@
    ||| k == "struct"@
    ||| k == "interface"@
    ||| k == "type"@
    ||| k == "const"@
}

/// A symbol extracted from the file `path` of package `prefix`: located in
/// the file, of a Go kind, qualified under the package, and public exactly
/// when its name is capitalised (interface methods are always public).
pub open spec fn go_symbol_ok(s: Symbol, prefix: Seq<char>, path: Seq<char>) -> bool {
    &&& s.loc.file@ == path
    &&& is_go_kind(s.kind@)
    &&& crate::text::starts_with(s.qualified_name@, prefix)
    &&& (s.visibility == go_visibility_spec(s.name@) || s.kind@ == "method"@)
}

/// An import of the package `prefix` in the file `path`.
pub open spec fn go_dep_ok(d: Dependency, prefix: Seq<char>, path: Seq<char>) -> bool {
    &&& d.from_qualified@ == prefix
    &&& d.kind == DepKind::Import
    &&& d.loc.file@ == path
}

/// `new` keeps everything of `old` and only adds symbols and imports that
/// are valid for the file.
pub open spec fn go_grows(old: Ir, new: Ir, prefix: Seq<char>, path: Seq<char>) -> bool {
    &&& old.symbols@.len() <= new.symbols@.len()
    &&& old.dependencies@.len() <= new.dependencies@.len()
    &&& forall|i: int| 0 <= i < old.symbols@.len() ==> #[trigger] new.symbols@[i] == old.symbols@[i]
    &&& forall|i: int| 0 <= i < old.dependencies@.len() ==> #[trigger] new.dependencies@[i] == old.dependencies@[i]
    &&& forall|i: int| old.symbols@.len() <= i < new.symbols@.len() ==> go_symbol_ok(#[trigger] new.symbols@[i], prefix, path)
    &&& forall|i: int| old.dependencies@.len() <= i < new.dependencies@.len() ==> go_dep_ok(#[trigger] new.dependencies@[i], prefix, path)
}

/// Every symbol and dependency of `ir` is valid for the file.
pub open spec fn go_ir_ok(ir: Ir, prefix: Seq<char>, path: Seq<char>) -> bool {
    &&& forall|i: int| 0 <= i < ir.symbols@.len() ==> go_symbol_ok(#[trigger] ir.symbols@[i], prefix, path)
    &&& forall|i: int| 0 <= i < ir.dependencies@.len() ==> go_dep_ok(#[trigger] ir.dependencies@[i], prefix, path)
}

// ---------------------------------------------------------------------------
// Exactly which symbols and imports a file yields
// ---------------------------------------------------------------------------

/// The declaration a symbol is made from.
pub enum GoSource {
    Function(int),
    Method(int),
    /// A method of an interface, with the interface's name.
    MethodElem(int, Seq<char>),
    TypeSpec(int),
    TypeAlias(int),
    /// A constant: the `const_spec` node and its `identifier` child.
    Const(int, int),
}

/// Symbol `s` is what its source declaration yields.
pub open spec fn go_symbol_from(s: Symbol, src: GoSource, t: SyntaxTree, path: Seq<char>, prefix: Seq<char>) -> bool {
    match src {
        GoSource::Function(n) => is_function_symbol(s, t, n, path, prefix),
        GoSource::Method(n) => is_method_symbol(s, t, n, path, prefix),
        GoSource::MethodElem(n, p) => is_method_elem_symbol(s, t, n, path, prefix, p),
        GoSource::TypeSpec(n) => is_type_spec_symbol(s, t, n, path, prefix),
        GoSource::TypeAlias(n) => is_type_alias_symbol(s, t, n, path, prefix),
        GoSource::Const(n, c) => is_const_symbol(s, t, n, c, path, prefix),
    }
}

/// The methods of an interface type among its children `cs`.
pub open spec fn method_elem_sources(t: SyntaxTree, cs: Seq<usize>, parent: Seq<char>) -> Seq<GoSource>
    decreases cs.len(),
{
    if cs.len() == 0 {
        seq![]
    } else {
        let c = cs.last();
        method_elem_sources(t, cs.drop_last(), parent) + if t.kind(c as int) == "method_elem"@ && child_of_kind(
            t,
            c as int,
            "field_identifier"@,
        ) is Some {
            seq![GoSource::MethodElem(c as int, parent)]
        } else {
            seq![]
        }
    }
}

/// What a `type_spec` yields: nothing without a name; an interface's
/// methods and then the interface; otherwise the type alone.
pub open spec fn type_spec_sources(t: SyntaxTree, n: int) -> Seq<GoSource> {
    match child_in_field(t, n, "name"@) {
        None => seq![],
        Some(nm) => match child_in_field(t, n, "type"@) {
            Some(c) => if t.kind(c as int) == "interface_type"@ {
                method_elem_sources(t, t.children(c as int), t.text(nm as int)).push(GoSource::TypeSpec(n))
            } else {
                seq![GoSource::TypeSpec(n)]
            },
            None => seq![GoSource::TypeSpec(n)],
        },
    }
}

/// What the children `cs` of a `type_declaration` yield.
pub open spec fn type_decl_sources(t: SyntaxTree, cs: Seq<usize>) -> Seq<GoSource>
    decreases cs.len(),
{
    if cs.len() == 0 {
        seq![]
    } else {
        let c = cs.last();
        type_decl_sources(t, cs.drop_last()) + if t.kind(c as int) == "type_spec"@ {
            type_spec_sources(t, c as int)
        } else if t.kind(c as int) == "type_alias"@ && child_in_field(t, c as int, "name"@) is Some {
            seq![GoSource::TypeAlias(c as int)]
        } else {
            seq![]
        }
    }
}

/// The constants a `const_spec` `n` names among its children `cs`.
pub open spec fn const_sources(t: SyntaxTree, n: int, cs: Seq<usize>) -> Seq<GoSource>
    decreases cs.len(),
{
    if cs.len() == 0 {
        seq![]
    } else {
        let c = cs.last();
        const_sources(t, n, cs.drop_last()) + if t.kind(c as int) == "identifier"@ {
            seq![GoSource::Const(n, c as int)]
        } else {
            seq![]
        }
    }
}

/// What the children `cs` of a `const_declaration` yield.
pub open spec fn const_decl_sources(t: SyntaxTree, cs: Seq<usize>) -> Seq<GoSource>
    decreases cs.len(),
{
    if cs.len() == 0 {
        seq![]
    } else {
        let c = cs.last();
        const_decl_sources(t, cs.drop_last()) + if t.kind(c as int) == "const_spec"@ {
            const_sources(t, c as int, t.children(c as int))
        } else {
            seq![]
        }
    }
}

/// What the top-level declarations `cs` of a file yield, in order.
pub open spec fn top_sources(t: SyntaxTree, cs: Seq<usize>) -> Seq<GoSource>
    decreases cs.len(),
{
    if cs.len() == 0 {
        seq![]
    } else {
        let c = cs.last();
        let k = t.kind(c as int);
        top_sources(t, cs.drop_last()) + if k == "function_declaration"@ && child_in_field(t, c as int, "name"@) is Some {
            seq![GoSource::Function(c as int)]
        } else if k == "method_declaration"@ && child_in_field(t, c as int, "name"@) is Some {
            seq![GoSource::Method(c as int)]
        } else if k == "type_declaration"@ {
            type_decl_sources(t, t.children(c as int))
        } else if k == "const_declaration"@ {
            const_decl_sources(t, t.children(c as int))
        } else {
            seq![]
        }
    }
}

/// The `import_spec` nodes among `cs` that name a path.
pub open spec fn import_spec_nodes(t: SyntaxTree, cs: Seq<usize>) -> Seq<int>
    decreases cs.len(),
{
    if cs.len() == 0 {
        seq![]
    } else {
        let c = cs.last();
        import_spec_nodes(t, cs.drop_last()) + if t.kind(c as int) == "import_spec"@ && child_of_kind(
            t,
            c as int,
            "interpreted_string_literal"@,
        ) is Some {
            seq![c as int]
        } else {
            seq![]
        }
    }
}

/// The imports of the children `cs` of an `import_declaration`: single
/// specs and grouped lists.
pub open spec fn import_decl_nodes(t: SyntaxTree, cs: Seq<usize>) -> Seq<int>
    decreases cs.len(),
{
    if cs.len() == 0 {
        seq![]
    } else {
        let c = cs.last();
        import_decl_nodes(t, cs.drop_last()) + if t.kind(c as int) == "import_spec"@ {
            import_spec_nodes(t, seq![c])
        } else if t.kind(c as int) == "import_spec_list"@ {
            import_spec_nodes(t, t.children(c as int))
        } else {
            seq![]
        }
    }
}

/// The imports of the top-level declarations `cs`.
pub open spec fn top_import_nodes(t: SyntaxTree, cs: Seq<usize>) -> Seq<int>
    decreases cs.len(),
{
    if cs.len() == 0 {
        seq![]
    } else {
        let c = cs.last();
        top_import_nodes(t, cs.drop_last()) + if t.kind(c as int) == "import_declaration"@ {
            import_decl_nodes(t, t.children(c as int))
        } else {
            seq![]
        }
    }
}

/// `new` is `old` followed by one symbol per source and one import per
/// import node, in order, each what its node yields.
pub open spec fn go_extends(
    old: Ir,
    new: Ir,
    srcs: Seq<GoSource>,
    imps: Seq<int>,
    t: SyntaxTree,
    path: Seq<char>,
    prefix: Seq<char>,
) -> bool {
    &&& new.symbols@.len() == old.symbols@.len() + srcs.len()
    &&& new.dependencies@.len() == old.dependencies@.len() + imps.len()
    &&& forall|i: int| 0 <= i < old.symbols@.len() ==> #[trigger] new.symbols@[i] == old.symbols@[i]
    &&& forall|i: int| 0 <= i < old.dependencies@.len() ==> #[trigger] new.dependencies@[i] == old.dependencies@[i]
    &&& forall|k: int| 0 <= k < srcs.len() ==> go_symbol_from(
        #[trigger] new.symbols@[old.symbols@.len() + k],
        srcs[k],
        t,
        path,
        prefix,
    )
    &&& forall|k: int| 0 <= k < imps.len() ==> is_import_dep(
        #[trigger] new.dependencies@[old.dependencies@.len() + k],
        t,
        imps[k],
        path,
        prefix,
    )
}

pub proof fn lemma_go_extends_trans(
    a: Ir,
    b: Ir,
    c: Ir,
    s1: Seq<GoSource>,
    i1: Seq<int>,
    s2: Seq<GoSource>,
    i2: Seq<int>,
    t: SyntaxTree,
    path: Seq<char>,
    prefix: Seq<char>,
)
    requires
        go_extends(a, b, s1, i1, t, path, prefix),
        go_extends(b, c, s2, i2, t, path, prefix),
    ensures
        go_extends(a, c, s1 + s2, i1 + i2, t, path, prefix),
{
    let al = a.symbols@.len() as int;
    let ad = a.dependencies@.len() as int;
    assert forall|i: int| 0 <= i < a.symbols@.len() implies #[trigger] c.symbols@[i] == a.symbols@[i] by {
        assert(c.symbols@[i] == b.symbols@[i]);
    }
    assert forall|i: int| 0 <= i < a.dependencies@.len() implies #[trigger] c.dependencies@[i] == a.dependencies@[i] by {
        assert(c.dependencies@[i] == b.dependencies@[i]);
    }
    assert forall|k: int| 0 <= k < (s1 + s2).len() implies go_symbol_from(
        #[trigger] c.symbols@[al + k],
        (s1 + s2)[k],
        t,
        path,
        prefix,
    ) by {
        if k < s1.len() {
            assert(c.symbols@[al + k] == b.symbols@[al + k]);
        } else {
            let j = k - s1.len();
            assert(b.symbols@.len() + j == al + k);
            assert(go_symbol_from(c.symbols@[b.symbols@.len() + j], s2[j], t, path, prefix));
        }
    }
    assert forall|k: int| 0 <= k < (i1 + i2).len() implies is_import_dep(
        #[trigger] c.dependencies@[ad + k],
        t,
        (i1 + i2)[k],
        path,
        prefix,
    ) by {
        if k < i1.len() {
            assert(c.dependencies@[ad + k] == b.dependencies@[ad + k]);
        } else {
            let j = k - i1.len();
            assert(b.dependencies@.len() + j == ad + k);
            assert(is_import_dep(c.dependencies@[b.dependencies@.len() + j], t, i2[j], path, prefix));
        }
    }
}

pub proof fn lemma_go_extends_refl(a: Ir, t: SyntaxTree, path: Seq<char>, prefix: Seq<char>)
    ensures
        go_extends(a, a, seq![], seq![], t, path, prefix),
{
}

/// One pushed symbol extends the IR by its source.
proof fn lemma_pushed_symbol(a: Ir, b: Ir, s: Symbol, src: GoSource, t: SyntaxTree, path: Seq<char>, prefix: Seq<char>)
    requires
        b.symbols@ == a.symbols@.push(s),
        b.dependencies@ == a.dependencies@,
        go_symbol_from(s, src, t, path, prefix),
    ensures
        go_extends(a, b, seq![src], seq![], t, path, prefix),
{
    assert(b.symbols@[a.symbols@.len() + 0int] == s);
}

/// The node kinds the walk tells apart are different words.
proof fn lemma_go_kinds_distinct()
    ensures
        "import_declaration"@ != "function_declaration"@,
        "import_declaration"@ != "method_declaration"@,
        "import_declaration"@ != "type_declaration"@,
        "import_declaration"@ != "const_declaration"@,
        "function_declaration"@ != "method_declaration"@,
        "function_declaration"@ != "type_declaration"@,
        "function_declaration"@ != "const_declaration"@,
        "method_declaration"@ != "type_declaration"@,
        "method_declaration"@ != "const_declaration"@,
        "type_declaration"@ != "const_declaration"@,
        "type_spec"@ != "type_alias"@,
        "struct_type"@ != "interface_type"@,
        "import_spec"@ != "import_spec_list"@,
{
    reveal_strlit("import_declaration");
    reveal_strlit("function_declaration");
    reveal_strlit("method_declaration");
    reveal_strlit("type_declaration");
    reveal_strlit("const_declaration");
    reveal_strlit("type_spec");
    reveal_strlit("type_alias");
    reveal_strlit("struct_type");
    reveal_strlit("interface_type");
    reveal_strlit("import_spec");
    reveal_strlit("import_spec_list");
    assert("import_declaration"@[0] != "function_declaration"@[0]);
    assert("import_declaration"@[0] != "method_declaration"@[0]);
    assert("import_declaration"@[0] != "type_declaration"@[0]);
    assert("import_declaration"@[0] != "const_declaration"@[0]);
    assert("function_declaration"@[0] != "method_declaration"@[0]);
    assert("function_declaration"@[0] != "type_declaration"@[0]);
    assert("function_declaration"@[0] != "const_declaration"@[0]);
    assert("method_declaration"@[0] != "type_declaration"@[0]);
    assert("method_declaration"@[0] != "const_declaration"@[0]);
    assert("type_declaration"@[0] != "const_declaration"@[0]);
    assert("type_spec"@[5] != "type_alias"@[5]);
    assert("struct_type"@[0] != "interface_type"@[0]);
    assert("import_spec"@.len() != "import_spec_list"@.len());
}

pub proof fn lemma_go_grows_trans(a: Ir, b: Ir, c: Ir, prefix: Seq<char>, path: Seq<char>)
    requires
        go_grows(a, b, prefix, path),
        go_grows(b, c, prefix, path),
    ensures
        go_grows(a, c, prefix, path),
{
    assert forall|i: int| a.symbols@.len() <= i < c.symbols@.len() implies go_symbol_ok(#[trigger] c.symbols@[i], prefix, path) by {
        if i < b.symbols@.len() {
            assert(c.symbols@[i] == b.symbols@[i]);
        }
    }
    assert forall|i: int| a.dependencies@.len() <= i < c.dependencies@.len() implies go_dep_ok(#[trigger] c.dependencies@[i], prefix, path) by {
        if i < b.dependencies@.len() {
            assert(c.dependencies@[i] == b.dependencies@[i]);
        }
    }
}

pub proof fn lemma_qualified_starts(prefix: Seq<char>, name: Seq<char>, rest: Seq<char>)
    ensures
        crate::text::starts_with(qualified_spec(prefix, name), prefix),
        crate::text::starts_with(qualified_spec(prefix, name) + rest, prefix),
{
    let q = qualified_spec(prefix, name);
    if prefix.len() == 0 {
        assert(q.subrange(0, 0) =~= prefix);
        assert((q + rest).subrange(0, 0) =~= prefix);
    } else {
        assert(q.subrange(0, prefix.len() as int) =~= prefix);
        assert((q + rest).subrange(0, prefix.len() as int) =~= prefix);
    }
}

/// Add one symbol that is valid for the file.
fn push_symbol(ir: &mut Ir, s: Symbol, Ghost(prefix): Ghost<Seq<char>>, Ghost(path): Ghost<Seq<char>>)
    requires
        go_symbol_ok(s, prefix, path),
    ensures
        go_grows(*old(ir), *final(ir), prefix, path),
        final(ir).symbols@ == old(ir).symbols@.push(s),
        final(ir).dependencies@ == old(ir).dependencies@,
{
    ir.symbols.push(s);
}

// ---------------------------------------------------------------------------
// Type declarations
// ---------------------------------------------------------------------------

/// The symbol of a `type_alias` node: `type X = Y`.
pub open spec fn is_type_alias_symbol(s: Symbol, t: SyntaxTree, n: int, path: Seq<char>, prefix: Seq<char>) -> bool {
    let ty = match child_in_field(t, n, "type"@) {
        Some(c) => t.text(c as int),
        None => seq![],
    };
    &&& child_in_field(t, n, "name"@) matches Some(nm) && s.name@ == t.text(nm as int)
    &&& s.qualified_name@ == qualified_spec(prefix, s.name@)
    &&& s.kind@ == "type"@
    &&& is_loc_of(s.loc, t, n, path)
    &&& s.visibility == go_visibility_spec(s.name@)
    &&& s.signature matches Some(sig) && sig@ == "type "@ + s.name@ + " = "@ + ty
    &&& s.parent is None
    &&& s.attributes@.len() == 0
    &&& s.fields@.len() == 0
    &&& s.params@.len() == 0
    &&& s.return_type matches Some(rt) && rt@ == ty
}

/// A `type_alias` node as a symbol; `None` without a name.
pub fn type_alias_symbol(t: &SyntaxTree, n: usize, path: &str, prefix: &str) -> (r: Option<Symbol>)
    requires
        t.wf(),
        n < t.len(),
    ensures
        r is Some <==> child_in_field(*t, n as int, "name"@) is Some,
        r matches Some(s) ==> is_type_alias_symbol(s, *t, n as int, path@, prefix@),
{
    let nm = match child_by_field_name(t, n, "name") {
        Some(c) => c,
        None => {
            return None;
        },
    };
    let name = node_text(t, nm);
    let ty = match child_by_field_name(t, n, "type") {
        Some(c) => node_text(t, c),
        None => String::new(),
    };
    let mut sig = owned("type ");
    push_str(&mut sig, name.as_str());
    push_str(&mut sig, " = ");
    push_str(&mut sig, ty.as_str());
    Some(Symbol {
        qualified_name: qualified(prefix, name.as_str()),
        visibility: go_visibility(name.as_str()),
        name,
        kind: owned("type"),
        loc: loc_of(t, n, path),
        signature: Some(sig),
        parent: None,
        attributes: Vec::new(),
        fields: Vec::new(),
        params: Vec::new(),
        return_type: Some(ty),
    })
}

/// The symbol a `type_spec` node declares, by the kind of its type: a
/// struct with its fields, an interface, or a named type definition.
pub open spec fn is_type_spec_symbol(s: Symbol, t: SyntaxTree, n: int, path: Seq<char>, prefix: Seq<char>) -> bool {
    let tn = child_in_field(t, n, "type"@);
    let ty = match tn {
        Some(c) => t.text(c as int),
        None => seq![],
    };
    &&& child_in_field(t, n, "name"@) matches Some(nm) && s.name@ == t.text(nm as int)
    &&& s.qualified_name@ == qualified_spec(prefix, s.name@)
    &&& is_loc_of(s.loc, t, n, path)
    &&& s.visibility == go_visibility_spec(s.name@)
    &&& s.parent is None
    &&& s.attributes@.len() == 0
    &&& s.params@.len() == 0
    &&& match tn {
        Some(c) => if t.kind(c as int) == "struct_type"@ {
            &&& s.kind@ == "struct"@
            &&& s.signature is None
            &&& fields_view(s.fields@) == struct_fields_spec(t, c as int)
            &&& s.return_type is None
        } else if t.kind(c as int) == "interface_type"@ {
            &&& s.kind@ == "interface"@
            &&& s.signature is None
            &&& s.fields@.len() == 0
            &&& s.return_type is None
        } else {
            is_named_type_rest(s, ty)
        },
        None => is_named_type_rest(s, ty),
    }
}

/// The kind, signature and type of a named type definition `type X Y`.
pub open spec fn is_named_type_rest(s: Symbol, ty: Seq<char>) -> bool {
    &&& s.kind@ == "type"@
    &&& s.signature matches Some(sig) && sig@ == "type "@ + s.name@ + " "@ + ty
    &&& s.fields@.len() == 0
    &&& s.return_type matches Some(rt) && rt@ == ty
}

/// Push the methods of an interface type, then nothing else.
fn interface_methods(t: &SyntaxTree, n: usize, path: &str, prefix: &str, parent: &str, ir: &mut Ir)
    requires
        t.wf(),
        n < t.len(),
    ensures
        go_grows(*old(ir), *final(ir), prefix@, path@),
        go_extends(*old(ir), *final(ir), method_elem_sources(*t, t.children(n as int), parent@), seq![], *t, path@, prefix@),
{
    let cs = &t.nodes[n].children;
    let ghost all = t.children(n as int);
    proof {
        lemma_children_after(*t, n as int);
        assert(all.take(0) =~= Seq::<usize>::empty());
    }
    let mut i: usize = 0;
    while i < cs.len()
        invariant
            i <= cs.len(),
            t.wf(),
            all == cs@,
            forall|j: int| 0 <= j < all.len() ==> n < #[trigger] all[j] < t.len(),
            go_grows(*old(ir), *ir, prefix@, path@),
            go_extends(*old(ir), *ir, method_elem_sources(*t, all.take(i as int), parent@), seq![], *t, path@, prefix@),
        decreases cs.len() - i,
    {
        let c = cs[i];
        assert(all[i as int] == c);
        let ghost before = *ir;
        let ghost piece: Seq<GoSource> = if t.kind(c as int) == "method_elem"@ && child_of_kind(*t, c as int, "field_identifier"@) is Some {
            seq![GoSource::MethodElem(c as int, parent@)]
        } else {
            seq![]
        };
        if kind_is(t, c, "method_elem") {
            match extract_method_elem(t, c, path, prefix, parent) {
                Some(sym) => {
                    proof {
                        lemma_qualified_starts(prefix@, parent@, "."@ + sym.name@);
                        assert(qualified_spec(prefix@, parent@) + "."@ + sym.name@ =~= qualified_spec(prefix@, parent@) + ("."@ + sym.name@));
                    }
                    push_symbol(ir, sym, Ghost(prefix@), Ghost(path@));
                    proof {
                        lemma_go_grows_trans(*old(ir), before, *ir, prefix@, path@);
                        lemma_pushed_symbol(before, *ir, sym, GoSource::MethodElem(c as int, parent@), *t, path@, prefix@);
                    }
                },
                None => {
                    proof {
                        lemma_go_extends_refl(before, *t, path@, prefix@);
                    }
                },
            }
        } else {
            proof {
                lemma_go_extends_refl(before, *t, path@, prefix@);
            }
        }
        proof {
            lemma_go_extends_trans(
                *old(ir),
                before,
                *ir,
                method_elem_sources(*t, all.take(i as int), parent@),
                seq![],
                piece,
                seq![],
                *t,
                path@,
                prefix@,
            );
            assert(all.take(i + 1).drop_last() =~= all.take(i as int));
            assert(all.take(i + 1).last() == c);
            assert(method_elem_sources(*t, all.take(i as int), parent@) + piece =~= method_elem_sources(
                *t,
                all.take(i + 1),
                parent@,
            ));
            assert(Seq::<int>::empty() + Seq::<int>::empty() =~= Seq::<int>::empty());
        }
        i += 1;
    }
    assert(all.take(cs.len() as int) =~= all);
}

/// Extract the declarations of a `type_spec` node: its interface methods,
/// if any, then its own symbol.
fn type_spec(t: &SyntaxTree, n: usize, path: &str, prefix: &str, ir: &mut Ir)
    requires
        t.wf(),
        n < t.len(),
    ensures
        go_grows(*old(ir), *final(ir), prefix@, path@),
        child_in_field(*t, n as int, "name"@) is None ==> *final(ir) == *old(ir),
        child_in_field(*t, n as int, "name"@) is Some ==> final(ir).symbols@.len() > old(ir).symbols@.len()
            && is_type_spec_symbol(final(ir).symbols@.last(), *t, n as int, path@, prefix@),
        go_extends(*old(ir), *final(ir), type_spec_sources(*t, n as int), seq![], *t, path@, prefix@),
{
    proof {
        lemma_go_kinds_distinct();
    }
    let ghost start = *ir;
    let nm = match child_by_field_name(t, n, "name") {
        Some(c) => c,
        None => {
            proof {
                lemma_go_extends_refl(start, *t, path@, prefix@);
            }
            return;
        },
    };
    let name = node_text(t, nm);
    let tn = child_by_field_name(t, n, "type");
    proof {
        lemma_qualified_starts(prefix@, name@, seq![]);
    }
    let is_struct = match tn {
        Some(c) => kind_is(t, c, "struct_type"),
        None => false,
    };
    let is_iface = match tn {
        Some(c) => kind_is(t, c, "interface_type"),
        None => false,
    };
    if is_struct {
        let c = tn.unwrap();
        let fields = struct_fields(t, c);
        let sym = Symbol {
            qualified_name: qualified(prefix, name.as_str()),
            visibility: go_visibility(name.as_str()),
            name,
            kind: owned("struct"),
            loc: loc_of(t, n, path),
            signature: None,
            parent: None,
            attributes: Vec::new(),
            fields,
            params: Vec::new(),
            return_type: None,
        };
        assert(is_type_spec_symbol(sym, *t, n as int, path@, prefix@));
        let ghost sv = sym;
        push_symbol(ir, sym, Ghost(prefix@), Ghost(path@));
        proof {
            lemma_pushed_symbol(start, *ir, sv, GoSource::TypeSpec(n as int), *t, path@, prefix@);
        }
    } else if is_iface {
        let c = tn.unwrap();
        interface_methods(t, c, path, prefix, name.as_str(), ir);
        let ghost mid = *ir;
        let sym = Symbol {
            qualified_name: qualified(prefix, name.as_str()),
            visibility: go_visibility(name.as_str()),
            name,
            kind: owned("interface"),
            loc: loc_of(t, n, path),
            signature: None,
            parent: None,
            attributes: Vec::new(),
            fields: Vec::new(),
            params: Vec::new(),
            return_type: None,
        };
        assert(is_type_spec_symbol(sym, *t, n as int, path@, prefix@));
        let ghost before = *ir;
        let ghost sv = sym;
        push_symbol(ir, sym, Ghost(prefix@), Ghost(path@));
        proof {
            lemma_go_grows_trans(*old(ir), before, *ir, prefix@, path@);
            lemma_pushed_symbol(mid, *ir, sv, GoSource::TypeSpec(n as int), *t, path@, prefix@);
            let ms = method_elem_sources(*t, t.children(c as int), t.text(nm as int));
            lemma_go_extends_trans(start, mid, *ir, ms, seq![], seq![GoSource::TypeSpec(n as int)], seq![], *t, path@, prefix@);
            assert(ms + seq![GoSource::TypeSpec(n as int)] =~= ms.push(GoSource::TypeSpec(n as int)));
            assert(Seq::<int>::empty() + Seq::<int>::empty() =~= Seq::<int>::empty());
        }
    } else {
        let ty = match tn {
            Some(c) => node_text(t, c),
            None => String::new(),
        };
        let mut sig = owned("type ");
        push_str(&mut sig, name.as_str());
        push_str(&mut sig, " ");
        push_str(&mut sig, ty.as_str());
        let sym = Symbol {
            qualified_name: qualified(prefix, name.as_str()),
            visibility: go_visibility(name.as_str()),
            name,
            kind: owned("type"),
            loc: loc_of(t, n, path),
            signature: Some(sig),
            parent: None,
            attributes: Vec::new(),
            fields: Vec::new(),
            params: Vec::new(),
            return_type: Some(ty),
        };
        assert(is_type_spec_symbol(sym, *t, n as int, path@, prefix@));
        let ghost sv = sym;
        push_symbol(ir, sym, Ghost(prefix@), Ghost(path@));
        proof {
            lemma_pushed_symbol(start, *ir, sv, GoSource::TypeSpec(n as int), *t, path@, prefix@);
        }
    }
}

/// Extract every `type_spec` and `type_alias` of a type declaration.
fn type_declaration(t: &SyntaxTree, n: usize, path: &str, prefix: &str, ir: &mut Ir)
    requires
        t.wf(),
        n < t.len(),
    ensures
        go_grows(*old(ir), *final(ir), prefix@, path@),
        go_extends(*old(ir), *final(ir), type_decl_sources(*t, t.children(n as int)), seq![], *t, path@, prefix@),
{
    proof {
        lemma_go_kinds_distinct();
    }
    let cs = &t.nodes[n].children;
    let ghost all = t.children(n as int);
    proof {
        lemma_children_after(*t, n as int);
        assert(all.take(0) =~= Seq::<usize>::empty());
    }
    let mut i: usize = 0;
    while i < cs.len()
        invariant
            i <= cs.len(),
            t.wf(),
            all == cs@,
            forall|j: int| 0 <= j < all.len() ==> n < #[trigger] all[j] < t.len(),
            go_grows(*old(ir), *ir, prefix@, path@),
            go_extends(*old(ir), *ir, type_decl_sources(*t, all.take(i as int)), seq![], *t, path@, prefix@),
            "type_spec"@ != "type_alias"@,
        decreases cs.len() - i,
    {
        let c = cs[i];
        assert(all[i as int] == c);
        let ghost before = *ir;
        let ghost piece: Seq<GoSource> = if t.kind(c as int) == "type_spec"@ {
            type_spec_sources(*t, c as int)
        } else if t.kind(c as int) == "type_alias"@ && child_in_field(*t, c as int, "name"@) is Some {
            seq![GoSource::TypeAlias(c as int)]
        } else {
            seq![]
        };
        if kind_is(t, c, "type_spec") {
            type_spec(t, c, path, prefix, ir);
        } else if kind_is(t, c, "type_alias") {
            match type_alias_symbol(t, c, path, prefix) {
                Some(sym) => {
                    proof {
                        lemma_qualified_starts(prefix@, sym.name@, seq![]);
                    }
                    let ghost sv = sym;
                    push_symbol(ir, sym, Ghost(prefix@), Ghost(path@));
                    proof {
                        lemma_pushed_symbol(before, *ir, sv, GoSource::TypeAlias(c as int), *t, path@, prefix@);
                    }
                },
                None => {
                    proof {
                        lemma_go_extends_refl(before, *t, path@, prefix@);
                    }
                },
            }
        } else {
            proof {
                lemma_go_extends_refl(before, *t, path@, prefix@);
            }
        }
        proof {
            lemma_go_grows_trans(*old(ir), before, *ir, prefix@, path@);
            lemma_go_extends_trans(
                *old(ir),
                before,
                *ir,
                type_decl_sources(*t, all.take(i as int)),
                seq![],
                piece,
                seq![],
                *t,
                path@,
                prefix@,
            );
            assert(all.take(i + 1).drop_last() =~= all.take(i as int));
            assert(all.take(i + 1).last() == c);
            assert(type_decl_sources(*t, all.take(i as int)) + piece =~= type_decl_sources(*t, all.take(i + 1)));
            assert(Seq::<int>::empty() + Seq::<int>::empty() =~= Seq::<int>::empty());
        }
        i += 1;
    }
    assert(all.take(cs.len() as int) =~= all);
}

// ---------------------------------------------------------------------------
// Constants
// ---------------------------------------------------------------------------

/// The symbol for the constant named by child `c` of the `const_spec` `n`.
pub open spec fn is_const_symbol(s: Symbol, t: SyntaxTree, n: int, c: int, path: Seq<char>, prefix: Seq<char>) -> bool {
    &&& s.name@ == t.text(c)
    &&& s.qualified_name@ == qualified_spec(prefix, s.name@)
    &&& s.kind@ == "const"@
    &&& is_loc_of(s.loc, t, c, path)
    &&& s.visibility == go_visibility_spec(s.name@)
    &&& s.signature matches Some(sig) && sig@ == trim(t.text(n))
    &&& s.parent is None
    &&& s.attributes@.len() == 0
    &&& s.fields@.len() == 0
    &&& s.params@.len() == 0
    &&& s.return_type is None
}

/// One constant symbol per `identifier` child of a `const_spec`, in order.
fn const_spec(t: &SyntaxTree, n: usize, path: &str, prefix: &str, ir: &mut Ir)
    requires
        t.wf(),
        n < t.len(),
    ensures
        go_grows(*old(ir), *final(ir), prefix@, path@),
        go_extends(*old(ir), *final(ir), const_sources(*t, n as int, t.children(n as int)), seq![], *t, path@, prefix@),
{
    let cs = &t.nodes[n].children;
    let ghost all = t.children(n as int);
    proof {
        lemma_children_after(*t, n as int);
        assert(all.take(0) =~= Seq::<usize>::empty());
    }
    let mut i: usize = 0;
    while i < cs.len()
        invariant
            i <= cs.len(),
            t.wf(),
            n < t.len(),
            all == cs@,
            all == t.children(n as int),
            forall|j: int| 0 <= j < all.len() ==> n < #[trigger] all[j] < t.len(),
            go_grows(*old(ir), *ir, prefix@, path@),
            go_extends(*old(ir), *ir, const_sources(*t, n as int, all.take(i as int)), seq![], *t, path@, prefix@),
        decreases cs.len() - i,
    {
        let c = cs[i];
        assert(all[i as int] == c);
        let ghost before = *ir;
        let ghost piece: Seq<GoSource> = if t.kind(c as int) == "identifier"@ {
            seq![GoSource::Const(n as int, c as int)]
        } else {
            seq![]
        };
        if kind_is(t, c, "identifier") {
            let name = node_text(t, c);
            let sig = trim_str(t.nodes[n].text.as_str());
            let sym = Symbol {
                qualified_name: qualified(prefix, name.as_str()),
                visibility: go_visibility(name.as_str()),
                name,
                kind: owned("const"),
                loc: loc_of(t, c, path),
                signature: Some(sig),
                parent: None,
                attributes: Vec::new(),
                fields: Vec::new(),
                params: Vec::new(),
                return_type: None,
            };
            proof {
                lemma_qualified_starts(prefix@, sym.name@, seq![]);
            }
            assert(is_const_symbol(sym, *t, n as int, c as int, path@, prefix@));
            let ghost sv = sym;
            push_symbol(ir, sym, Ghost(prefix@), Ghost(path@));
            proof {
                lemma_pushed_symbol(before, *ir, sv, GoSource::Const(n as int, c as int), *t, path@, prefix@);
            }
        } else {
            proof {
                lemma_go_extends_refl(before, *t, path@, prefix@);
            }
        }
        proof {
            lemma_go_grows_trans(*old(ir), before, *ir, prefix@, path@);
            lemma_go_extends_trans(
                *old(ir),
                before,
                *ir,
                const_sources(*t, n as int, all.take(i as int)),
                seq![],
                piece,
                seq![],
                *t,
                path@,
                prefix@,
            );
            assert(all.take(i + 1).drop_last() =~= all.take(i as int));
            assert(all.take(i + 1).last() == c);
            assert(const_sources(*t, n as int, all.take(i as int)) + piece =~= const_sources(*t, n as int, all.take(i + 1)));
            assert(Seq::<int>::empty() + Seq::<int>::empty() =~= Seq::<int>::empty());
        }
        i += 1;
    }
    assert(all.take(cs.len() as int) =~= all);
}

/// The constants of a `const_declaration`.
fn const_declaration(t: &SyntaxTree, n: usize, path: &str, prefix: &str, ir: &mut Ir)
    requires
        t.wf(),
        n < t.len(),
    ensures
        go_grows(*old(ir), *final(ir), prefix@, path@),
        go_extends(*old(ir), *final(ir), const_decl_sources(*t, t.children(n as int)), seq![], *t, path@, prefix@),
{
    let cs = &t.nodes[n].children;
    let ghost all = t.children(n as int);
    proof {
        lemma_children_after(*t, n as int);
        assert(all.take(0) =~= Seq::<usize>::empty());
    }
    let mut i: usize = 0;
    while i < cs.len()
        invariant
            i <= cs.len(),
            t.wf(),
            all == cs@,
            forall|j: int| 0 <= j < all.len() ==> n < #[trigger] all[j] < t.len(),
            go_grows(*old(ir), *ir, prefix@, path@),
            go_extends(*old(ir), *ir, const_decl_sources(*t, all.take(i as int)), seq![], *t, path@, prefix@),
        decreases cs.len() - i,
    {
        let c = cs[i];
        assert(all[i as int] == c);
        let ghost before = *ir;
        let ghost piece: Seq<GoSource> = if t.kind(c as int) == "const_spec"@ {
            const_sources(*t, c as int, t.children(c as int))
        } else {
            seq![]
        };
        if kind_is(t, c, "const_spec") {
            const_spec(t, c, path, prefix, ir);
        } else {
            proof {
                lemma_go_extends_refl(before, *t, path@, prefix@);
            }
        }
        proof {
            lemma_go_grows_trans(*old(ir), before, *ir, prefix@, path@);
            lemma_go_extends_trans(
                *old(ir),
                before,
                *ir,
                const_decl_sources(*t, all.take(i as int)),
                seq![],
                piece,
                seq![],
                *t,
                path@,
                prefix@,
            );
            assert(all.take(i + 1).drop_last() =~= all.take(i as int));
            assert(all.take(i + 1).last() == c);
            assert(const_decl_sources(*t, all.take(i as int)) + piece =~= const_decl_sources(*t, all.take(i + 1)));
            assert(Seq::<int>::empty() + Seq::<int>::empty() =~= Seq::<int>::empty());
        }
        i += 1;
    }
    assert(all.take(cs.len() as int) =~= all);
}

// ---------------------------------------------------------------------------
// Imports
// ---------------------------------------------------------------------------

/// What an `import_spec` yields: an import of the quoted path it names.
pub open spec fn is_import_dep(d: Dependency, t: SyntaxTree, n: int, path: Seq<char>, prefix: Seq<char>) -> bool {
    &&& child_of_kind(t, n, "interpreted_string_literal"@) matches Some(p)
        && d.to_name@ == trim_matches_spec(t.text(p as int), '"')
    &&& d.from_qualified@ == prefix
    &&& d.kind == DepKind::Import
    &&& is_loc_of(d.loc, t, n, path)
}

/// The import an `import_spec` names; `None` without a path literal.
pub fn extract_import_spec(t: &SyntaxTree, n: usize, path: &str, prefix: &str) -> (r: Option<Dependency>)
    requires
        t.wf(),
        n < t.len(),
    ensures
        r is Some <==> child_of_kind(*t, n as int, "interpreted_string_literal"@) is Some,
        r matches Some(d) ==> is_import_dep(d, *t, n as int, path@, prefix@),
{
    match find_child_by_kind(t, n, "interpreted_string_literal") {
        Some(p) => Some(Dependency {
            from_qualified: owned(prefix),
            to_name: trim_matches(t.nodes[p].text.as_str(), '"'),
            kind: DepKind::Import,
            loc: loc_of(t, n, path),
        }),
        None => None,
    }
}

proof fn lemma_import_spec_single(t: SyntaxTree, n: usize)
    ensures
        import_spec_nodes(t, seq![n]) == if t.kind(n as int) == "import_spec"@ && child_of_kind(
            t,
            n as int,
            "interpreted_string_literal"@,
        ) is Some {
            seq![n as int]
        } else {
            Seq::<int>::empty()
        },
{
    let one = seq![n];
    assert(one.drop_last() =~= Seq::<usize>::empty());
    assert(import_spec_nodes(t, one.drop_last()) == Seq::<int>::empty());
    assert(one.last() == n);
    assert(Seq::<int>::empty() + seq![n as int] =~= seq![n as int]);
    assert(Seq::<int>::empty() + Seq::<int>::empty() =~= Seq::<int>::empty());
}

/// One pushed import extends the IR by its node.
proof fn lemma_pushed_import(a: Ir, b: Ir, d: Dependency, n: int, t: SyntaxTree, path: Seq<char>, prefix: Seq<char>)
    requires
        b.dependencies@ == a.dependencies@.push(d),
        b.symbols@ == a.symbols@,
        is_import_dep(d, t, n, path, prefix),
    ensures
        go_extends(a, b, seq![], seq![n], t, path, prefix),
{
    assert(b.dependencies@[a.dependencies@.len() + 0int] == d);
}

fn push_import_spec(t: &SyntaxTree, n: usize, path: &str, prefix: &str, ir: &mut Ir)
    requires
        t.wf(),
        n < t.len(),
        t.kind(n as int) == "import_spec"@,
    ensures
        go_grows(*old(ir), *final(ir), prefix@, path@),
        go_extends(*old(ir), *final(ir), seq![], import_spec_nodes(*t, seq![n]), *t, path@, prefix@),
{
    let ghost start = *ir;
    proof {
        lemma_import_spec_single(*t, n);
    }
    match extract_import_spec(t, n, path, prefix) {
        Some(d) => {
            let ghost dv = d;
            ir.dependencies.push(d);
            proof {
                lemma_pushed_import(start, *ir, dv, n as int, *t, path@, prefix@);
                assert(Seq::<int>::empty() + seq![n as int] =~= seq![n as int]);
            }
        },
        None => {
            proof {
                lemma_go_extends_refl(start, *t, path@, prefix@);
                assert(Seq::<int>::empty() + Seq::<int>::empty() =~= Seq::<int>::empty());
            }
        },
    }
}

/// The imports of an `import_declaration`, single or grouped.
fn imports(t: &SyntaxTree, n: usize, path: &str, prefix: &str, ir: &mut Ir)
    requires
        t.wf(),
        n < t.len(),
    ensures
        go_grows(*old(ir), *final(ir), prefix@, path@),
        go_extends(*old(ir), *final(ir), seq![], import_decl_nodes(*t, t.children(n as int)), *t, path@, prefix@),
{
    proof {
        lemma_go_kinds_distinct();
    }
    let cs = &t.nodes[n].children;
    let ghost all = t.children(n as int);
    proof {
        lemma_children_after(*t, n as int);
        assert(all.take(0) =~= Seq::<usize>::empty());
    }
    let mut i: usize = 0;
    while i < cs.len()
        invariant
            i <= cs.len(),
            t.wf(),
            all == cs@,
            forall|j: int| 0 <= j < all.len() ==> n < #[trigger] all[j] < t.len(),
            go_grows(*old(ir), *ir, prefix@, path@),
            go_extends(*old(ir), *ir, seq![], import_decl_nodes(*t, all.take(i as int)), *t, path@, prefix@),
            "import_spec"@ != "import_spec_list"@,
        decreases cs.len() - i,
    {
        let c = cs[i];
        assert(all[i as int] == c);
        let ghost before = *ir;
        let ghost piece: Seq<int> = if t.kind(c as int) == "import_spec"@ {
            import_spec_nodes(*t, seq![c])
        } else if t.kind(c as int) == "import_spec_list"@ {
            import_spec_nodes(*t, t.children(c as int))
        } else {
            seq![]
        };
        if kind_is(t, c, "import_spec") {
            push_import_spec(t, c, path, prefix, ir);
        } else if kind_is(t, c, "import_spec_list") {
            let inner = &t.nodes[c].children;
            let ghost ins = t.children(c as int);
            proof {
                lemma_children_after(*t, c as int);
                assert(ins.take(0) =~= Seq::<usize>::empty());
                lemma_go_extends_refl(before, *t, path@, prefix@);
            }
            let mut j: usize = 0;
            while j < inner.len()
                invariant
                    j <= inner.len(),
                    t.wf(),
                    ins == inner@,
                    forall|k: int| 0 <= k < ins.len() ==> c < #[trigger] ins[k] < t.len(),
                    go_grows(before, *ir, prefix@, path@),
                    go_extends(before, *ir, seq![], import_spec_nodes(*t, ins.take(j as int)), *t, path@, prefix@),
                decreases inner.len() - j,
            {
                let spec_node = inner[j];
                assert(ins[j as int] == spec_node);
                let ghost mid = *ir;
                let ghost pc: Seq<int> = if t.kind(spec_node as int) == "import_spec"@ && child_of_kind(
                    *t,
                    spec_node as int,
                    "interpreted_string_literal"@,
                ) is Some {
                    seq![spec_node as int]
                } else {
                    seq![]
                };
                if kind_is(t, spec_node, "import_spec") {
                    push_import_spec(t, spec_node, path, prefix, ir);
                    proof {
                        lemma_go_grows_trans(before, mid, *ir, prefix@, path@);
                        lemma_import_spec_single(*t, spec_node);
                    }
                } else {
                    proof {
                        lemma_go_extends_refl(mid, *t, path@, prefix@);
                    }
                }
                proof {
                    lemma_go_extends_trans(
                        before,
                        mid,
                        *ir,
                        seq![],
                        import_spec_nodes(*t, ins.take(j as int)),
                        seq![],
                        pc,
                        *t,
                        path@,
                        prefix@,
                    );
                    assert(ins.take(j + 1).drop_last() =~= ins.take(j as int));
                    assert(ins.take(j + 1).last() == spec_node);
                    assert(import_spec_nodes(*t, ins.take(j as int)) + pc =~= import_spec_nodes(*t, ins.take(j + 1)));
                    assert(Seq::<GoSource>::empty() + Seq::<GoSource>::empty() =~= Seq::<GoSource>::empty());
                }
                j += 1;
            }
            assert(ins.take(inner.len() as int) =~= ins);
        } else {
            proof {
                lemma_go_extends_refl(before, *t, path@, prefix@);
            }
        }
        proof {
            lemma_go_grows_trans(*old(ir), before, *ir, prefix@, path@);
            lemma_go_extends_trans(
                *old(ir),
                before,
                *ir,
                seq![],
                import_decl_nodes(*t, all.take(i as int)),
                seq![],
                piece,
                *t,
                path@,
                prefix@,
            );
            assert(all.take(i + 1).drop_last() =~= all.take(i as int));
            assert(all.take(i + 1).last() == c);
            assert(import_decl_nodes(*t, all.take(i as int)) + piece =~= import_decl_nodes(*t, all.take(i + 1)));
            assert(Seq::<GoSource>::empty() + Seq::<GoSource>::empty() =~= Seq::<GoSource>::empty());
        }
        i += 1;
    }
    assert(all.take(cs.len() as int) =~= all);
}

// ---------------------------------------------------------------------------
// Package and top-level items
// ---------------------------------------------------------------------------

/// The name in the first `package_clause` among `cs` that has one.
pub open spec fn package_in(t: SyntaxTree, cs: Seq<usize>) -> Option<Seq<char>>
    decreases cs.len(),
{
    if cs.len() == 0 {
        None
    } else if t.kind(cs[0] as int) == "package_clause"@ && child_of_kind(t, cs[0] as int, "package_identifier"@) is Some {
        Some(t.text(child_of_kind(t, cs[0] as int, "package_identifier"@)->0 as int))
    } else {
        package_in(t, cs.drop_first())
    }
}

/// The package a file declares.
pub open spec fn package_spec(t: SyntaxTree) -> Option<Seq<char>> {
    package_in(t, t.children(0))
}

/// The package a file declares, if any.
pub fn extract_package(t: &SyntaxTree) -> (r: Option<String>)
    requires
        t.wf(),
        t.len() > 0,
    ensures
        match r {
            Some(p) => package_spec(*t) == Some(p@),
            None => package_spec(*t) is None,
        },
{
    let cs = &t.nodes[0].children;
    let ghost all = t.children(0);
    proof {
        lemma_children_after(*t, 0);
    }
    let mut i: usize = 0;
    assert(all.skip(0) =~= all);
    while i < cs.len()
        invariant
            i <= cs.len(),
            t.wf(),
            all == cs@,
            all == t.children(0),
            forall|j: int| 0 <= j < all.len() ==> 0 < #[trigger] all[j] < t.len(),
            package_spec(*t) == package_in(*t, all.skip(i as int)),
        decreases cs.len() - i,
    {
        assert(all.skip(i as int)[0] == all[i as int]);
        assert(all.skip(i as int).drop_first() =~= all.skip(i + 1));
        let c = cs[i];
        assert(all[i as int] == c);
        if kind_is(t, c, "package_clause") {
            match find_child_by_kind(t, c, "package_identifier") {
                Some(p) => {
                    return Some(node_text(t, p));
                },
                None => {},
            }
        }
        i += 1;
    }
    assert(all.skip(i as int) =~= Seq::<usize>::empty());
    None
}

/// Extract the imports and declarations among the children of `n`.
fn extract_items(t: &SyntaxTree, n: usize, path: &str, prefix: &str, ir: &mut Ir)
    requires
        t.wf(),
        n < t.len(),
    ensures
        go_grows(*old(ir), *final(ir), prefix@, path@),
        go_extends(
            *old(ir),
            *final(ir),
            top_sources(*t, t.children(n as int)),
            top_import_nodes(*t, t.children(n as int)),
            *t,
            path@,
            prefix@,
        ),
{
    proof {
        lemma_go_kinds_distinct();
    }
    let cs = &t.nodes[n].children;
    let ghost all = t.children(n as int);
    proof {
        lemma_children_after(*t, n as int);
        assert(all.take(0) =~= Seq::<usize>::empty());
    }
    let mut i: usize = 0;
    while i < cs.len()
        invariant
            i <= cs.len(),
            t.wf(),
            all == cs@,
            forall|j: int| 0 <= j < all.len() ==> n < #[trigger] all[j] < t.len(),
            go_grows(*old(ir), *ir, prefix@, path@),
            go_extends(
                *old(ir),
                *ir,
                top_sources(*t, all.take(i as int)),
                top_import_nodes(*t, all.take(i as int)),
                *t,
                path@,
                prefix@,
            ),
            "import_declaration"@ != "function_declaration"@,
            "import_declaration"@ != "method_declaration"@,
            "import_declaration"@ != "type_declaration"@,
            "import_declaration"@ != "const_declaration"@,
        decreases cs.len() - i,
    {
        let c = cs[i];
        assert(all[i as int] == c);
        let ghost before = *ir;
        let ghost k = t.kind(c as int);
        let ghost spiece: Seq<GoSource> = if k == "function_declaration"@ && child_in_field(*t, c as int, "name"@) is Some {
            seq![GoSource::Function(c as int)]
        } else if k == "method_declaration"@ && child_in_field(*t, c as int, "name"@) is Some {
            seq![GoSource::Method(c as int)]
        } else if k == "type_declaration"@ {
            type_decl_sources(*t, t.children(c as int))
        } else if k == "const_declaration"@ {
            const_decl_sources(*t, t.children(c as int))
        } else {
            seq![]
        };
        let ghost ipiece: Seq<int> = if k == "import_declaration"@ {
            import_decl_nodes(*t, t.children(c as int))
        } else {
            seq![]
        };
        if kind_is(t, c, "import_declaration") {
            imports(t, c, path, prefix, ir);
        } else if kind_is(t, c, "function_declaration") {
            match extract_function(t, c, path, prefix) {
                Some(sym) => {
                    proof {
                        lemma_qualified_starts(prefix@, sym.name@, seq![]);
                    }
                    let ghost sv = sym;
                    push_symbol(ir, sym, Ghost(prefix@), Ghost(path@));
                    proof {
                        lemma_pushed_symbol(before, *ir, sv, GoSource::Function(c as int), *t, path@, prefix@);
                    }
                },
                None => {
                    proof {
                        lemma_go_extends_refl(before, *t, path@, prefix@);
                    }
                },
            }
        } else if kind_is(t, c, "method_declaration") {
            match extract_method(t, c, path, prefix) {
                Some(sym) => {
                    proof {
                        lemma_qualified_starts(prefix@, sym.name@, seq![]);
                        match receiver_spec(*t, c as int) {
                            Some(p) => {
                                lemma_qualified_starts(prefix@, p, "."@ + sym.name@);
                                assert(qualified_spec(prefix@, p) + "."@ + sym.name@ =~= qualified_spec(prefix@, p) + ("."@ + sym.name@));
                            },
                            None => {},
                        }
                    }
                    let ghost sv = sym;
                    push_symbol(ir, sym, Ghost(prefix@), Ghost(path@));
                    proof {
                        lemma_pushed_symbol(before, *ir, sv, GoSource::Method(c as int), *t, path@, prefix@);
                    }
                },
                None => {
                    proof {
                        lemma_go_extends_refl(before, *t, path@, prefix@);
                    }
                },
            }
        } else if kind_is(t, c, "type_declaration") {
            type_declaration(t, c, path, prefix, ir);
        } else if kind_is(t, c, "const_declaration") {
            const_declaration(t, c, path, prefix, ir);
        } else {
            proof {
                lemma_go_extends_refl(before, *t, path@, prefix@);
            }
        }
        proof {
            lemma_go_grows_trans(*old(ir), before, *ir, prefix@, path@);
            assert(Seq::<GoSource>::empty() + Seq::<GoSource>::empty() =~= Seq::<GoSource>::empty());
            assert(Seq::<int>::empty() + Seq::<int>::empty() =~= Seq::<int>::empty());
            lemma_go_kinds_distinct();
            assert(go_extends(before, *ir, spiece, ipiece, *t, path@, prefix@));
            lemma_go_extends_trans(
                *old(ir),
                before,
                *ir,
                top_sources(*t, all.take(i as int)),
                top_import_nodes(*t, all.take(i as int)),
                spiece,
                ipiece,
                *t,
                path@,
                prefix@,
            );
            assert(all.take(i + 1).drop_last() =~= all.take(i as int));
            assert(all.take(i + 1).last() == c);
            assert(top_sources(*t, all.take(i as int)) + spiece =~= top_sources(*t, all.take(i + 1)));
            assert(top_import_nodes(*t, all.take(i as int)) + ipiece =~= top_import_nodes(*t, all.take(i + 1)));
        }
        i += 1;
    }
    assert(all.take(cs.len() as int) =~= all);
}

/// A file's IR is exactly what its top-level declarations yield, in order:
/// one symbol per [`GoSource`] of [`top_sources`], one import per node of
/// [`top_import_nodes`], qualified by the package the file declares.
pub open spec fn go_ir_exact(ir: Ir, t: SyntaxTree, path: Seq<char>) -> bool {
    let prefix = match package_spec(t) {
        Some(p) => p,
        None => seq![],
    };
    let srcs = top_sources(t, t.children(0));
    let imps = top_import_nodes(t, t.children(0));
    &&& ir.symbols@.len() == srcs.len()
    &&& forall|k: int| 0 <= k < srcs.len() ==> go_symbol_from(#[trigger] ir.symbols@[k], srcs[k], t, path, prefix)
    &&& ir.dependencies@.len() == imps.len()
    &&& forall|k: int| 0 <= k < imps.len() ==> is_import_dep(#[trigger] ir.dependencies@[k], t, imps[k], path, prefix)
}

/// The IR of a Go file from its syntax tree: the symbols and imports of the
/// top-level declarations, qualified by the declared package.
pub fn extract_ir(t: &SyntaxTree, path: &str) -> (r: Ir)
    requires
        t.wf(),
        t.len() > 0,
    ensures
        go_ir_ok(
            r,
            match package_spec(*t) {
                Some(p) => p,
                None => seq![],
            },
            path@,
        ),
        go_ir_exact(r, *t, path@),
{
    let prefix = match extract_package(t) {
        Some(p) => p,
        None => String::new(),
    };
    let mut ir = Ir::new();
    let ghost start = ir;
    extract_items(t, 0, path, prefix.as_str(), &mut ir);
    proof {
        let srcs = top_sources(*t, t.children(0));
        let imps = top_import_nodes(*t, t.children(0));
        assert forall|k: int| 0 <= k < srcs.len() implies go_symbol_from(#[trigger] ir.symbols@[k], srcs[k], *t, path@, prefix@) by {
            assert(ir.symbols@[start.symbols@.len() + k] == ir.symbols@[k]);
        }
        assert forall|k: int| 0 <= k < imps.len() implies is_import_dep(#[trigger] ir.dependencies@[k], *t, imps[k], path@, prefix@) by {
            assert(ir.dependencies@[start.dependencies@.len() + k] == ir.dependencies@[k]);
        }
    }
    ir
}

/// Parse a Go source file and return the IR.
pub fn parse_file(path: &str, source: &str) -> (r: Result<Ir, String>)
    ensures
        r matches Ok(ir) ==> forall|i: int| 0 <= i < ir.symbols@.len() ==> {
            &&& (#[trigger] ir.symbols@[i]).loc.file@ == path@
            &&& is_go_kind(ir.symbols@[i].kind@)
        },
        r matches Ok(ir) ==> forall|i: int| 0 <= i < ir.dependencies@.len() ==> {
            &&& (#[trigger] ir.dependencies@[i]).kind == DepKind::Import
            &&& ir.dependencies@[i].loc.file@ == path@
        },
        r is Ok <==> crate::parser::grammar::grammar_loads(crate::parser::grammar::grammar_id(crate::parser::grammar::Grammar::Go)),
        r matches Ok(ir) ==> exists|tr: SyntaxTree| tr.wf() && tr.len() > 0 && crate::parser::grammar::tree_view(tr) == crate::parser::grammar::ts_layout(
            crate::parser::grammar::grammar_id(crate::parser::grammar::Grammar::Go),
            source@,
        ) && #[trigger] go_ir_exact(ir, tr, path@),
{
    match crate::parser::grammar::build_tree(crate::parser::grammar::Grammar::Go, source) {
        Ok(t) => {
            let ir = extract_ir(&t, path);
            assert forall|i: int| 0 <= i < ir.symbols@.len() implies {
                &&& (#[trigger] ir.symbols@[i]).loc.file@ == path@
                &&& is_go_kind(ir.symbols@[i].kind@)
            } by {
                assert(ir.symbols@[i] == ir.symbols@[i]);
            }
            assert forall|i: int| 0 <= i < ir.dependencies@.len() implies {
                &&& (#[trigger] ir.dependencies@[i]).kind == DepKind::Import
                &&& ir.dependencies@[i].loc.file@ == path@
            } by {
                assert(ir.dependencies@[i] == ir.dependencies@[i]);
            }
            let r = Ok(ir);
            proof {
                let gi = r->Ok_0;
                assert(t.wf() && t.len() > 0 && crate::parser::grammar::tree_view(t) == crate::parser::grammar::ts_layout(crate::parser::grammar::grammar_id(crate::parser::grammar::Grammar::Go), source@) && go_ir_exact(gi, t, path@));
            }
            r
        },
        Err(e) => Err(crate::parser::grammar::tree_error_message(e, path)),
    }
}

} // verus!

verus! {

/// A Go name is exported exactly when it starts with an upper-case
/// letter: public then, private otherwise (the empty name included).
pub proof fn lemma_go_visibility_cases(name: Seq<char>)
    ensures
        go_visibility_spec(name) == Visibility::Public <==> (name.len() > 0 && is_uppercase(name[0])),
        go_visibility_spec(name) == Visibility::Private <==> !(name.len() > 0 && is_uppercase(name[0])),
        go_visibility_spec(name) != Visibility::Crate,
{
}

} // verus!
