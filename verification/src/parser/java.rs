//! Java conventions: the package prefix derived from a file's path when the
//! file declares no package.

use vstd::prelude::*;

use crate::ir::types::{DepKind, Dependency, Field, Ir, Param, Symbol, Visibility};
use crate::parser::common::{fields_view, params_view};
use crate::parser::go::qualified_spec;
use crate::parser::tree::{
    child_by_field_name, child_in_field, child_of_kind, find_child_by_kind, is_loc_of, kind_is,
    lemma_children_after, loc_of, node_text, SyntaxTree,
};
use crate::paths::rfind_char_exec;
use crate::split::{first_index, first_index_exec, trim_end_matches};
use crate::text::{
    chars_of, join, join_strings, owned, push_str, replace_char, rfind_char, starts_with, str_eq,
    str_starts_with, string_of, strip_prefix, strip_prefix_str, strip_suffix, strip_suffix_str,
    trim, trim_end_char, trim_str, views,
};

verus! {

/// The path with the first matching Java source root removed.
pub open spec fn java_source_relative(p: Seq<char>) -> Seq<char> {
    if starts_with(p, "src/main/java/"@) {
        strip_prefix(p, "src/main/java/"@)
    } else if starts_with(p, "src/test/java/"@) {
        strip_prefix(p, "src/test/java/"@)
    } else {
        strip_prefix(p, "src/"@)
    }
}

/// The dotted directory part of the source-relative path without `.java`;
/// empty when the file sits at the root.
pub open spec fn package_prefix_spec(p: Seq<char>) -> Seq<char> {
    let w = strip_suffix(java_source_relative(p), ".java"@);
    match rfind_char(w, '/') {
        Some(i) => replace_char(w.take(i), '/', '.'),
        None => seq![],
    }
}

/// Derive a qualified package prefix from a Java file's path:
/// `src/main/java/com/example/Foo.java` -> `com.example`.
pub fn package_prefix_from_path(path: &str) -> (r: String)
    ensures
        r@ == package_prefix_spec(path@),
{
    let stripped = if str_starts_with(path, "src/main/java/") {
        strip_prefix_str(path, "src/main/java/")
    } else if str_starts_with(path, "src/test/java/") {
        strip_prefix_str(path, "src/test/java/")
    } else {
        strip_prefix_str(path, "src/")
    };
    let w = strip_suffix_str(stripped.as_str(), ".java");
    let v = chars_of(w.as_str());
    match rfind_char_exec(&v, '/') {
        Some(i) => {
            let dir = string_of(&v, 0, i);
            assert(dir@ =~= w@.take(i as int));
            dots_for_slashes(dir.as_str())
        },
        None => String::new(),
    }
}

/// `s` with every `/` replaced by `.`.
pub fn dots_for_slashes(s: &str) -> (r: String)
    ensures
        r@ == replace_char(s@, '/', '.'),
{
    let v = chars_of(s);
    let mut out = String::new();
    let mut i: usize = 0;
    while i < v.len()
        invariant
            i <= v.len(),
            v@ == s@,
            out@ == replace_char(s@.take(i as int), '/', '.'),
        decreases v.len() - i,
    {
        proof {
            crate::text::lemma_take_push(s@, i as int);
            assert(replace_char(s@.take(i + 1), '/', '.') =~= replace_char(s@.take(i as int), '/', '.').push(
                if s@[i as int] == '/' { '.' } else { s@[i as int] },
            ));
        }
        if v[i] == '/' {
            crate::text::push_char(&mut out, '.');
        } else {
            crate::text::push_char(&mut out, v[i]);
        }
        i += 1;
    }
    assert(s@.take(v.len() as int) =~= s@);
    out
}


// ---------------------------------------------------------------------------
// Modifiers, names
// ---------------------------------------------------------------------------

/// The visibility the keywords among `cs` give: the last of `public`,
/// `private`, `protected` decides; package-private without one.
pub open spec fn vis_in(t: SyntaxTree, cs: Seq<usize>) -> Visibility
    decreases cs.len(),
{
    if cs.len() == 0 {
        Visibility::Crate
    } else {
        let k = t.kind(cs.last() as int);
        if k == "public"@ {
            Visibility::Public
        } else if k == "private"@ {
            Visibility::Private
        } else if k == "protected"@ {
            Visibility::Crate
        } else {
            vis_in(t, cs.drop_last())
        }
    }
}

/// The texts of the annotations among `cs`.
pub open spec fn annotations_in(t: SyntaxTree, cs: Seq<usize>) -> Seq<Seq<char>>
    decreases cs.len(),
{
    if cs.len() == 0 {
        seq![]
    } else {
        let r = annotations_in(t, cs.drop_last());
        let k = t.kind(cs.last() as int);
        if k == "marker_annotation"@ || k == "annotation"@ {
            r.push(t.text(cs.last() as int))
        } else {
            r
        }
    }
}

/// Visibility and annotations from the `modifiers` child of `n`.
pub open spec fn modifiers_spec(t: SyntaxTree, n: int) -> (Visibility, Seq<Seq<char>>) {
    match child_of_kind(t, n, "modifiers"@) {
        Some(m) => (vis_in(t, t.children(m as int)), annotations_in(t, t.children(m as int))),
        None => (Visibility::Crate, seq![]),
    }
}

/// Extract visibility and annotation list from a `modifiers` child.
pub fn extract_modifiers(t: &SyntaxTree, n: usize) -> (r: (Visibility, Vec<String>))
    requires
        t.wf(),
        n < t.len(),
    ensures
        r.0 == modifiers_spec(*t, n as int).0,
        views(r.1@) == modifiers_spec(*t, n as int).1,
{
    let mut vis = Visibility::Crate;
    let mut attrs: Vec<String> = Vec::new();
    assert(views(attrs@) =~= Seq::<Seq<char>>::empty());
    let m = match find_child_by_kind(t, n, "modifiers") {
        Some(m) => m,
        None => {
            return (vis, attrs);
        },
    };
    let cs = &t.nodes[m].children;
    let ghost all = t.children(m as int);
    proof {
        lemma_children_after(*t, m as int);
    }
    let mut i: usize = 0;
    assert(all.take(0) =~= Seq::<usize>::empty());
    while i < cs.len()
        invariant
            i <= cs.len(),
            t.wf(),
            all == cs@,
            forall|j: int| 0 <= j < all.len() ==> m < #[trigger] all[j] < t.len(),
            vis == vis_in(*t, all.take(i as int)),
            views(attrs@) == annotations_in(*t, all.take(i as int)),
        decreases cs.len() - i,
    {
        proof {
            crate::text::lemma_take_push(all, i as int);
        }
        let c = cs[i];
        assert(all[i as int] == c);
        if kind_is(t, c, "public") {
            vis = Visibility::Public;
        } else if kind_is(t, c, "private") {
            vis = Visibility::Private;
        } else if kind_is(t, c, "protected") {
            vis = Visibility::Crate;
        }
        if kind_is(t, c, "marker_annotation") || kind_is(t, c, "annotation") {
            let ghost before = views(attrs@);
            attrs.push(node_text(t, c));
            assert(views(attrs@) =~= before.push(t.text(c as int)));
        }
        i += 1;
    }
    assert(all.take(cs.len() as int) =~= all);
    (vis, attrs)
}

/// The name of a declaration: its `name` field, else its first identifier.
pub open spec fn java_name_spec(t: SyntaxTree, n: int) -> Option<Seq<char>> {
    match child_in_field(t, n, "name"@) {
        Some(c) => Some(t.text(c as int)),
        None => match child_of_kind(t, n, "identifier"@) {
            Some(c) => Some(t.text(c as int)),
            None => None,
        },
    }
}

fn name_or_identifier(t: &SyntaxTree, n: usize) -> (r: Option<String>)
    requires
        t.wf(),
        n < t.len(),
    ensures
        match r {
            Some(x) => java_name_spec(*t, n as int) == Some(x@),
            None => java_name_spec(*t, n as int) is None,
        },
{
    match child_by_field_name(t, n, "name") {
        Some(c) => Some(node_text(t, c)),
        None => match find_child_by_kind(t, n, "identifier") {
            Some(c) => Some(node_text(t, c)),
            None => None,
        },
    }
}

fn name_field(t: &SyntaxTree, n: usize) -> (r: Option<String>)
    requires
        t.wf(),
        n < t.len(),
    ensures
        match r {
            Some(x) => child_in_field(*t, n as int, "name"@) matches Some(c) && t.text(c as int) == x@,
            None => child_in_field(*t, n as int, "name"@) is None,
        },
{
    match child_by_field_name(t, n, "name") {
        Some(c) => Some(node_text(t, c)),
        None => None,
    }
}

// ---------------------------------------------------------------------------
// Imports
// ---------------------------------------------------------------------------

/// The imported name: the text without `import `, trailing `;`, spaces and
/// a `static ` marker.
pub open spec fn import_path_spec(text: Seq<char>) -> Seq<char> {
    strip_prefix(trim(trim_end_char(strip_prefix(text, "import "@), ';')), "static "@)
}

/// The import an `import_declaration` names.
pub fn extract_import(t: &SyntaxTree, n: usize, path: &str, prefix: &str) -> (r: Dependency)
    requires
        n < t.len(),
    ensures
        r.from_qualified@ == prefix@,
        r.to_name@ == import_path_spec(t.text(n as int)),
        r.kind == DepKind::Import,
        is_loc_of(r.loc, *t, n as int, path@),
{
    let text = t.nodes[n].text.as_str();
    let a = strip_prefix_str(text, "import ");
    let b = trim_end_matches(a.as_str(), ';');
    let c = trim_str(b.as_str());
    let d = strip_prefix_str(c.as_str(), "static ");
    Dependency { from_qualified: owned(prefix), to_name: d, kind: DepKind::Import, loc: loc_of(t, n, path) }
}

// ---------------------------------------------------------------------------
// Parameters, fields, return types, signatures
// ---------------------------------------------------------------------------

/// The texts of the nodes `cs` whose kind is not `k`.
pub open spec fn texts_not_of_kind(t: SyntaxTree, cs: Seq<usize>, k: Seq<char>) -> Seq<Seq<char>>
    decreases cs.len(),
{
    if cs.len() == 0 {
        seq![]
    } else {
        let r = texts_not_of_kind(t, cs.drop_last(), k);
        if t.kind(cs.last() as int) != k {
            r.push(t.text(cs.last() as int))
        } else {
            r
        }
    }
}

/// The type of a formal parameter: the texts of its children but the last
/// (the name) and the modifiers, joined by spaces.
pub open spec fn param_type_spec(t: SyntaxTree, c: int) -> Seq<char> {
    if t.children(c).len() < 2 {
        seq![]
    } else {
        join(texts_not_of_kind(t, t.children(c).drop_last(), "modifiers"@), " "@)
    }
}

fn param_type(t: &SyntaxTree, c: usize) -> (r: String)
    requires
        t.wf(),
        c < t.len(),
    ensures
        r@ == param_type_spec(*t, c as int),
{
    let cs = &t.nodes[c].children;
    if cs.len() < 2 {
        return String::new();
    }
    let ghost all = t.children(c as int).drop_last();
    proof {
        lemma_children_after(*t, c as int);
    }
    let mut parts: Vec<String> = Vec::new();
    let mut i: usize = 0;
    assert(views(parts@) =~= texts_not_of_kind(*t, all.take(0), "modifiers"@));
    while i < cs.len() - 1
        invariant
            cs.len() >= 2,
            i <= cs.len() - 1,
            t.wf(),
            all == cs@.drop_last(),
            forall|j: int| 0 <= j < cs@.len() ==> c < #[trigger] cs@[j] < t.len(),
            views(parts@) == texts_not_of_kind(*t, all.take(i as int), "modifiers"@),
        decreases cs.len() - 1 - i,
    {
        proof {
            crate::text::lemma_take_push(all, i as int);
        }
        let k = cs[i];
        assert(all[i as int] == k);
        if !kind_is(t, k, "modifiers") {
            let ghost before = views(parts@);
            parts.push(node_text(t, k));
            assert(views(parts@) =~= before.push(t.text(k as int)));
        }
        i += 1;
    }
    assert(all.take((cs.len() - 1) as int) =~= all);
    join_strings(&parts, " ")
}

/// The parameter one child of a parameter list declares, if any.
pub open spec fn formal_param_spec(t: SyntaxTree, c: int) -> Seq<(Seq<char>, Seq<char>)> {
    let name = match child_of_kind(t, c, "identifier"@) {
        Some(i) => t.text(i as int),
        None => seq![],
    };
    if t.kind(c) == "formal_parameter"@ && name.len() > 0 {
        seq![(name, param_type_spec(t, c))]
    } else {
        seq![]
    }
}

/// The parameters declared among the nodes `cs`.
pub open spec fn formal_params_in(t: SyntaxTree, cs: Seq<usize>) -> Seq<(Seq<char>, Seq<char>)>
    decreases cs.len(),
{
    if cs.len() == 0 {
        seq![]
    } else {
        formal_params_in(t, cs.drop_last()) + formal_param_spec(t, cs.last() as int)
    }
}

/// The parameters of a method, constructor or record.
pub open spec fn formal_params_spec(t: SyntaxTree, n: int) -> Seq<(Seq<char>, Seq<char>)> {
    match child_of_kind(t, n, "formal_parameters"@) {
        Some(l) => formal_params_in(t, t.children(l as int)),
        None => seq![],
    }
}

/// The parameters of a method, constructor or record.
pub fn extract_formal_params(t: &SyntaxTree, n: usize) -> (r: Vec<Param>)
    requires
        t.wf(),
        n < t.len(),
    ensures
        params_view(r@) == formal_params_spec(*t, n as int),
{
    let mut params: Vec<Param> = Vec::new();
    assert(params_view(params@) =~= Seq::<(Seq<char>, Seq<char>)>::empty());
    let l = match find_child_by_kind(t, n, "formal_parameters") {
        Some(l) => l,
        None => {
            return params;
        },
    };
    let cs = &t.nodes[l].children;
    let ghost all = t.children(l as int);
    proof {
        lemma_children_after(*t, l as int);
    }
    let mut i: usize = 0;
    assert(all.take(0) =~= Seq::<usize>::empty());
    while i < cs.len()
        invariant
            i <= cs.len(),
            t.wf(),
            all == cs@,
            forall|j: int| 0 <= j < all.len() ==> l < #[trigger] all[j] < t.len(),
            params_view(params@) == formal_params_in(*t, all.take(i as int)),
        decreases cs.len() - i,
    {
        proof {
            crate::text::lemma_take_push(all, i as int);
        }
        let c = cs[i];
        assert(all[i as int] == c);
        let ghost before = params_view(params@);
        if kind_is(t, c, "formal_parameter") {
            let ty = param_type(t, c);
            let name = match find_child_by_kind(t, c, "identifier") {
                Some(x) => node_text(t, x),
                None => String::new(),
            };
            if !name.as_str().is_empty() {
                params.push(Param { name, type_str: ty });
            }
        }
        assert(params_view(params@) =~= before + formal_param_spec(*t, c as int));
        i += 1;
    }
    assert(all.take(cs.len() as int) =~= all);
    params
}

/// The type of a field declaration: the first non-empty text of a child
/// that is not modifiers, declarator or `;`.
pub open spec fn field_type_in(t: SyntaxTree, cs: Seq<usize>) -> Seq<char>
    decreases cs.len(),
{
    if cs.len() == 0 {
        seq![]
    } else {
        let k = t.kind(cs[0] as int);
        if k != "modifiers"@ && k != "variable_declarator"@ && k != ";"@ && t.text(cs[0] as int).len() > 0 {
            t.text(cs[0] as int)
        } else {
            field_type_in(t, cs.drop_first())
        }
    }
}

/// The field a `field_declaration` declares, if it names one.
pub open spec fn java_field_spec(t: SyntaxTree, n: int) -> Option<(Seq<char>, Seq<char>, Visibility)> {
    let name = match child_of_kind(t, n, "variable_declarator"@) {
        Some(vd) => match child_of_kind(t, vd as int, "identifier"@) {
            Some(i) => t.text(i as int),
            None => seq![],
        },
        None => seq![],
    };
    if name.len() == 0 {
        None
    } else {
        Some((name, field_type_in(t, t.children(n)), modifiers_spec(t, n).0))
    }
}

fn field_type(t: &SyntaxTree, n: usize) -> (r: String)
    requires
        t.wf(),
        n < t.len(),
    ensures
        r@ == field_type_in(*t, t.children(n as int)),
{
    let cs = &t.nodes[n].children;
    let ghost all = t.children(n as int);
    proof {
        lemma_children_after(*t, n as int);
    }
    let mut i: usize = 0;
    assert(all.skip(0) =~= all);
    while i < cs.len()
        invariant
            i <= cs.len(),
            t.wf(),
            all == cs@,
            all == t.children(n as int),
            forall|j: int| 0 <= j < all.len() ==> n < #[trigger] all[j] < t.len(),
            field_type_in(*t, all) == field_type_in(*t, all.skip(i as int)),
        decreases cs.len() - i,
    {
        assert(all.skip(i as int)[0] == all[i as int]);
        assert(all.skip(i as int).drop_first() =~= all.skip(i + 1));
        let c = cs[i];
        assert(all[i as int] == c);
        if !kind_is(t, c, "modifiers") && !kind_is(t, c, "variable_declarator") && !kind_is(t, c, ";")
            && !t.nodes[c].text.as_str().is_empty() {
            return node_text(t, c);
        }
        i += 1;
    }
    assert(all.skip(i as int) =~= Seq::<usize>::empty());
    String::new()
}

fn extract_field(t: &SyntaxTree, n: usize) -> (r: Option<Field>)
    requires
        t.wf(),
        n < t.len(),
    ensures
        match r {
            Some(f) => java_field_spec(*t, n as int) == Some((f.name@, f.type_str@, f.visibility)),
            None => java_field_spec(*t, n as int) is None,
        },
{
    let (vis, _attrs) = extract_modifiers(t, n);
    let ty = field_type(t, n);
    let name = match find_child_by_kind(t, n, "variable_declarator") {
        Some(vd) => match find_child_by_kind(t, vd, "identifier") {
            Some(i) => node_text(t, i),
            None => String::new(),
        },
        None => String::new(),
    };
    if name.as_str().is_empty() {
        return None;
    }
    Some(Field { name, type_str: ty, visibility: vis })
}

/// The fields declared by the `field_declaration` nodes among `cs`.
pub open spec fn java_fields_in(t: SyntaxTree, cs: Seq<usize>) -> Seq<(Seq<char>, Seq<char>, Visibility)>
    decreases cs.len(),
{
    if cs.len() == 0 {
        seq![]
    } else {
        let r = java_fields_in(t, cs.drop_last());
        if t.kind(cs.last() as int) == "field_declaration"@ && java_field_spec(t, cs.last() as int) is Some {
            r.push(java_field_spec(t, cs.last() as int)->0)
        } else {
            r
        }
    }
}

/// The fields of a class.
pub open spec fn class_fields_spec(t: SyntaxTree, n: int) -> Seq<(Seq<char>, Seq<char>, Visibility)> {
    match child_of_kind(t, n, "class_body"@) {
        Some(b) => java_fields_in(t, t.children(b as int)),
        None => seq![],
    }
}

/// The fields of a class.
pub fn extract_class_fields(t: &SyntaxTree, n: usize) -> (r: Vec<Field>)
    requires
        t.wf(),
        n < t.len(),
    ensures
        fields_view(r@) == class_fields_spec(*t, n as int),
{
    let mut fields: Vec<Field> = Vec::new();
    assert(fields_view(fields@) =~= Seq::<(Seq<char>, Seq<char>, Visibility)>::empty());
    let b = match find_child_by_kind(t, n, "class_body") {
        Some(b) => b,
        None => {
            return fields;
        },
    };
    let cs = &t.nodes[b].children;
    let ghost all = t.children(b as int);
    proof {
        lemma_children_after(*t, b as int);
    }
    let mut i: usize = 0;
    assert(all.take(0) =~= Seq::<usize>::empty());
    while i < cs.len()
        invariant
            i <= cs.len(),
            t.wf(),
            all == cs@,
            forall|j: int| 0 <= j < all.len() ==> b < #[trigger] all[j] < t.len(),
            fields_view(fields@) == java_fields_in(*t, all.take(i as int)),
        decreases cs.len() - i,
    {
        proof {
            crate::text::lemma_take_push(all, i as int);
        }
        let c = cs[i];
        assert(all[i as int] == c);
        let ghost before = fields_view(fields@);
        if kind_is(t, c, "field_declaration") {
            match extract_field(t, c) {
                Some(f) => {
                    fields.push(f);
                    assert(fields_view(fields@) =~= before.push(java_field_spec(*t, c as int)->0));
                },
                None => {
                    assert(fields_view(fields@) =~= before);
                },
            }
        } else {
            assert(fields_view(fields@) =~= before);
        }
        i += 1;
    }
    assert(all.take(cs.len() as int) =~= all);
    fields
}

/// Node kinds that spell a method's return type.
pub open spec fn is_return_type_kind(k: Seq<char>) -> bool {
    ||| k == "type_identifier"@
    ||| k == "generic_type"@
    ||| k == "array_type"@
    ||| k == "integral_type"@
    ||| k == "floating_point_type"@
    ||| k == "boolean_type"@
    ||| k == "scoped_type_identifier"@
}

/// The return type: `void`, or the text of the first type child.
pub open spec fn return_type_in(t: SyntaxTree, cs: Seq<usize>) -> Option<Seq<char>>
    decreases cs.len(),
{
    if cs.len() == 0 {
        None
    } else if t.kind(cs[0] as int) == "void_type"@ {
        Some("void"@)
    } else if is_return_type_kind(t.kind(cs[0] as int)) {
        Some(t.text(cs[0] as int))
    } else {
        return_type_in(t, cs.drop_first())
    }
}

fn extract_return_type(t: &SyntaxTree, n: usize) -> (r: Option<String>)
    requires
        t.wf(),
        n < t.len(),
    ensures
        match r {
            Some(x) => return_type_in(*t, t.children(n as int)) == Some(x@),
            None => return_type_in(*t, t.children(n as int)) is None,
        },
{
    let cs = &t.nodes[n].children;
    let ghost all = t.children(n as int);
    proof {
        lemma_children_after(*t, n as int);
    }
    let mut i: usize = 0;
    assert(all.skip(0) =~= all);
    while i < cs.len()
        invariant
            i <= cs.len(),
            t.wf(),
            all == cs@,
            all == t.children(n as int),
            forall|j: int| 0 <= j < all.len() ==> n < #[trigger] all[j] < t.len(),
            return_type_in(*t, all) == return_type_in(*t, all.skip(i as int)),
        decreases cs.len() - i,
    {
        assert(all.skip(i as int)[0] == all[i as int]);
        assert(all.skip(i as int).drop_first() =~= all.skip(i + 1));
        let c = cs[i];
        assert(all[i as int] == c);
        if kind_is(t, c, "void_type") {
            return Some(owned("void"));
        }
        if kind_is(t, c, "type_identifier") || kind_is(t, c, "generic_type") || kind_is(t, c, "array_type")
            || kind_is(t, c, "integral_type") || kind_is(t, c, "floating_point_type") || kind_is(
            t,
            c,
            "boolean_type",
        ) || kind_is(t, c, "scoped_type_identifier") {
            return Some(node_text(t, c));
        }
        i += 1;
    }
    assert(all.skip(i as int) =~= Seq::<usize>::empty());
    None
}

/// The text before the body, or without a trailing `;`, trimmed.
pub open spec fn method_signature_spec(text: Seq<char>) -> Seq<char> {
    match first_index(text, '{') {
        Some(p) => trim(text.take(p)),
        None => trim(trim_end_char(text, ';')),
    }
}

fn build_method_signature(t: &SyntaxTree, n: usize) -> (r: String)
    requires
        n < t.len(),
    ensures
        r@ == method_signature_spec(t.text(n as int)),
{
    let v = chars_of(t.nodes[n].text.as_str());
    match first_index_exec(&v, '{') {
        Some(p) => {
            let head = string_of(&v, 0, p);
            assert(head@ =~= v@.take(p as int));
            trim_str(head.as_str())
        },
        None => {
            let a = trim_end_matches(t.nodes[n].text.as_str(), ';');
            trim_str(a.as_str())
        },
    }
}

// ---------------------------------------------------------------------------
// Methods and constructors
// ---------------------------------------------------------------------------

/// `prefix.parent.name`, or `parent.name` without a prefix.
pub open spec fn member_qualified(prefix: Seq<char>, parent: Seq<char>, name: Seq<char>) -> Seq<char> {
    if prefix.len() == 0 {
        parent + "."@ + name
    } else {
        prefix + "."@ + parent + "."@ + name
    }
}

/// What a method (`ctor` false) or constructor declaration yields.
pub open spec fn is_java_member_symbol(
    s: Symbol,
    t: SyntaxTree,
    n: int,
    path: Seq<char>,
    prefix: Seq<char>,
    parent: Seq<char>,
    ctor: bool,
) -> bool {
    &&& java_name_spec(t, n) == Some(s.name@)
    &&& s.qualified_name@ == member_qualified(prefix, parent, s.name@)
    &&& s.kind@ == "method"@
    &&& is_loc_of(s.loc, t, n, path)
    &&& s.visibility == modifiers_spec(t, n).0
    &&& views(s.attributes@) == modifiers_spec(t, n).1
    &&& s.signature matches Some(sig) && sig@ == method_signature_spec(t.text(n))
    &&& s.parent matches Some(p) && p@ == parent
    &&& s.fields@.len() == 0
    &&& params_view(s.params@) == formal_params_spec(t, n)
    &&& if ctor {
        s.return_type is None
    } else {
        match s.return_type {
            Some(x) => return_type_in(t, t.children(n)) == Some(x@),
            None => return_type_in(t, t.children(n)) is None,
        }
    }
}

/// A method (`ctor` false) or constructor as a symbol; `None` without a name.
pub fn extract_member(t: &SyntaxTree, n: usize, path: &str, prefix: &str, parent: &str, ctor: bool) -> (r: Option<Symbol>)
    requires
        t.wf(),
        n < t.len(),
    ensures
        r is Some <==> java_name_spec(*t, n as int) is Some,
        r matches Some(s) ==> is_java_member_symbol(s, *t, n as int, path@, prefix@, parent@, ctor),
{
    let name = match name_or_identifier(t, n) {
        Some(x) => x,
        None => {
            return None;
        },
    };
    let (vis, attrs) = extract_modifiers(t, n);
    let mut q = String::new();
    if !prefix.is_empty() {
        push_str(&mut q, prefix);
        push_str(&mut q, ".");
    }
    push_str(&mut q, parent);
    push_str(&mut q, ".");
    push_str(&mut q, name.as_str());
    let params = extract_formal_params(t, n);
    let return_type = if ctor {
        None
    } else {
        extract_return_type(t, n)
    };
    let sig = build_method_signature(t, n);
    Some(Symbol {
        name,
        qualified_name: q,
        kind: owned("method"),
        loc: loc_of(t, n, path),
        visibility: vis,
        signature: Some(sig),
        parent: Some(owned(parent)),
        attributes: attrs,
        fields: Vec::new(),
        params,
        return_type,
    })
}


// ---------------------------------------------------------------------------
// What every extracted symbol and dependency satisfies
// ---------------------------------------------------------------------------

/// The symbol kinds the Java parser emits.
pub open spec fn is_java_kind(k: Seq<char>) -> bool {
    ||| k == "class"@
    ||| k == "interface"@
    ||| k == "enum"@
    ||| k == "record"@
    ||| k == "method"@
}

/// A symbol of the package `pkg` in the file `path`.
pub open spec fn java_symbol_ok(s: Symbol, pkg: Seq<char>, path: Seq<char>) -> bool {
    &&& s.loc.file@ == path
    &&& is_java_kind(s.kind@)
    &&& starts_with(s.qualified_name@, pkg)
}

/// An import or supertype of the package `pkg` in the file `path`.
pub open spec fn java_dep_ok(d: Dependency, pkg: Seq<char>, path: Seq<char>) -> bool {
    &&& d.loc.file@ == path
    &&& starts_with(d.from_qualified@, pkg)
    &&& (d.kind == DepKind::Import || d.kind == DepKind::Implements)
}

/// `new` keeps everything of `old` and only adds valid symbols and
/// dependencies.
pub open spec fn java_grows(old: Ir, new: Ir, pkg: Seq<char>, path: Seq<char>) -> bool {
    &&& old.symbols@.len() <= new.symbols@.len()
    &&& old.dependencies@.len() <= new.dependencies@.len()
    &&& forall|i: int| 0 <= i < old.symbols@.len() ==> #[trigger] new.symbols@[i] == old.symbols@[i]
    &&& forall|i: int| 0 <= i < old.dependencies@.len() ==> #[trigger] new.dependencies@[i] == old.dependencies@[i]
    &&& forall|i: int| old.symbols@.len() <= i < new.symbols@.len() ==> java_symbol_ok(#[trigger] new.symbols@[i], pkg, path)
    &&& forall|i: int| old.dependencies@.len() <= i < new.dependencies@.len() ==> java_dep_ok(#[trigger] new.dependencies@[i], pkg, path)
}

/// Every symbol and dependency of `ir` is valid for the file.
pub open spec fn java_ir_ok(ir: Ir, pkg: Seq<char>, path: Seq<char>) -> bool {
    &&& forall|i: int| 0 <= i < ir.symbols@.len() ==> java_symbol_ok(#[trigger] ir.symbols@[i], pkg, path)
    &&& forall|i: int| 0 <= i < ir.dependencies@.len() ==> java_dep_ok(#[trigger] ir.dependencies@[i], pkg, path)
}

// ---------------------------------------------------------------------------
// Exactly which symbols and dependencies a file yields
// ---------------------------------------------------------------------------

/// The declaration a symbol is made from.
pub enum JavaSymSrc {
    /// A method (`ctor` false) or constructor of `parent`, under `prefix`.
    Member(int, Seq<char>, Seq<char>, bool),
    /// A class, interface, enum or record under `prefix`, nested in `outer`.
    Type(int, Seq<char>, Option<Seq<char>>),
}

/// The declaration a dependency is made from.
pub enum JavaDepSrc {
    /// An `import_declaration` of a file with package prefix `prefix`.
    Import(int, Seq<char>),
    /// The superclass of the type declared by node `n`, qualified `q`.
    Super(int, Seq<char>),
    /// An implemented interface `c` of the type declared by `n`, qualified `q`.
    Iface(int, int, Seq<char>),
}

/// What a walk yields: symbol sources and dependency sources, in order.
pub struct JavaOut {
    pub syms: Seq<JavaSymSrc>,
    pub deps: Seq<JavaDepSrc>,
}

pub open spec fn out_none() -> JavaOut {
    JavaOut { syms: seq![], deps: seq![] }
}

pub open spec fn out_cat(a: JavaOut, b: JavaOut) -> JavaOut {
    JavaOut { syms: a.syms + b.syms, deps: a.deps + b.deps }
}

/// A record's components as private fields.
pub open spec fn record_fields(ps: Seq<(Seq<char>, Seq<char>)>) -> Seq<(Seq<char>, Seq<char>, Visibility)> {
    Seq::new(ps.len(), |i: int| (ps[i].0, ps[i].1, Visibility::Private))
}

/// The name a type declaration shows: an interface's name carries its type
/// parameters.
pub open spec fn type_display_name(t: SyntaxTree, n: int, name: Seq<char>) -> Seq<char> {
    if t.kind(n) == "interface_declaration"@ {
        match child_of_kind(t, n, "type_parameters"@) {
            Some(tp) => name + t.text(tp as int),
            None => name,
        }
    } else {
        name
    }
}

/// The symbol kind of a type declaration node.
pub open spec fn type_kind_name(k: Seq<char>) -> Seq<char> {
    if k == "class_declaration"@ {
        "class"@
    } else if k == "interface_declaration"@ {
        "interface"@
    } else if k == "enum_declaration"@ {
        "enum"@
    } else {
        "record"@
    }
}

/// What a class, interface, enum or record declaration yields as a symbol.
pub open spec fn is_java_type_symbol(
    s: Symbol,
    t: SyntaxTree,
    n: int,
    path: Seq<char>,
    prefix: Seq<char>,
    outer: Option<Seq<char>>,
) -> bool {
    let k = t.kind(n);
    &&& child_in_field(t, n, "name"@) matches Some(nm) && {
        let name = t.text(nm as int);
        &&& s.name@ == type_display_name(t, n, name)
        &&& s.qualified_name@ == qualified_spec(prefix, name)
    }
    &&& s.kind@ == type_kind_name(k)
    &&& is_loc_of(s.loc, t, n, path)
    &&& s.visibility == modifiers_spec(t, n).0
    &&& views(s.attributes@) == modifiers_spec(t, n).1
    &&& s.signature is None
    &&& s.return_type is None
    &&& match s.parent {
        Some(p) => outer == Some(p@),
        None => outer is None,
    }
    &&& fields_view(s.fields@) == if k == "class_declaration"@ {
        class_fields_spec(t, n)
    } else if k == "interface_declaration"@ || k == "enum_declaration"@ {
        seq![]
    } else {
        record_fields(formal_params_spec(t, n))
    }
    &&& params_view(s.params@) == if k == "class_declaration"@ || k == "interface_declaration"@ || k
        == "enum_declaration"@ {
        seq![]
    } else {
        formal_params_spec(t, n)
    }
}

pub open spec fn java_sym_from(s: Symbol, src: JavaSymSrc, t: SyntaxTree, path: Seq<char>) -> bool {
    match src {
        JavaSymSrc::Member(n, prefix, parent, ctor) => is_java_member_symbol(s, t, n, path, prefix, parent, ctor),
        JavaSymSrc::Type(n, prefix, outer) => is_java_type_symbol(s, t, n, path, prefix, outer),
    }
}

pub open spec fn java_dep_from(d: Dependency, src: JavaDepSrc, t: SyntaxTree, path: Seq<char>) -> bool {
    match src {
        JavaDepSrc::Import(n, prefix) => {
            &&& d.from_qualified@ == prefix
            &&& d.to_name@ == import_path_spec(t.text(n))
            &&& d.kind == DepKind::Import
            &&& is_loc_of(d.loc, t, n, path)
        },
        JavaDepSrc::Super(n, q) => {
            &&& child_of_kind(t, n, "superclass"@) matches Some(sc) && child_of_kind(t, sc as int, "type_identifier"@)
                matches Some(ti) && d.to_name@ == t.text(ti as int)
            &&& d.from_qualified@ == q
            &&& d.kind == DepKind::Implements
            &&& is_loc_of(d.loc, t, n, path)
        },
        JavaDepSrc::Iface(n, c, q) => {
            &&& d.to_name@ == t.text(c)
            &&& d.from_qualified@ == q
            &&& d.kind == DepKind::Implements
            &&& is_loc_of(d.loc, t, n, path)
        },
    }
}

/// The superclass dependency of the type declared by `n`, if it names one.
pub open spec fn super_out(t: SyntaxTree, n: int, q: Seq<char>) -> JavaOut {
    match child_of_kind(t, n, "superclass"@) {
        Some(sc) => match child_of_kind(t, sc as int, "type_identifier"@) {
            Some(ti) => JavaOut { syms: seq![], deps: seq![JavaDepSrc::Super(n, q)] },
            None => out_none(),
        },
        None => out_none(),
    }
}

/// The implemented interfaces among the children `cs` of a type list.
pub open spec fn iface_list(t: SyntaxTree, n: int, cs: Seq<usize>, q: Seq<char>) -> Seq<JavaDepSrc>
    decreases cs.len(),
{
    if cs.len() == 0 {
        seq![]
    } else {
        let c = cs.last();
        iface_list(t, n, cs.drop_last(), q) + if t.kind(c as int) == "type_identifier"@ || t.kind(c as int)
            == "generic_type"@ {
            seq![JavaDepSrc::Iface(n, c as int, q)]
        } else {
            seq![]
        }
    }
}

/// The implemented-interface dependencies of the type declared by `n`.
pub open spec fn ifaces_out(t: SyntaxTree, n: int, q: Seq<char>) -> JavaOut {
    match child_of_kind(t, n, "super_interfaces"@) {
        Some(x) => match child_of_kind(t, x as int, "type_list"@) {
            Some(tl) => JavaOut { syms: seq![], deps: iface_list(t, n, t.children(tl as int), q) },
            None => out_none(),
        },
        None => out_none(),
    }
}

pub open spec fn is_java_type_decl_kind(k: Seq<char>) -> bool {
    k == "class_declaration"@ || k == "interface_declaration"@ || k == "enum_declaration"@ || k
        == "record_declaration"@
}

/// What a type declaration yields: for a class its superclass and
/// interfaces, for an enum or record its interfaces; then its own symbol;
/// then its members.
pub open spec fn type_decl_out(t: SyntaxTree, n: int, prefix: Seq<char>, outer: Option<Seq<char>>) -> JavaOut
    decreases t.len() - n, 0int, 0int,
{
    if !(0 <= n < t.len()) {
        out_none()
    } else {
        match child_in_field(t, n, "name"@) {
            None => out_none(),
            Some(nm) => {
                let name = t.text(nm as int);
                let q = qualified_spec(prefix, name);
                let k = t.kind(n);
                let me = JavaOut { syms: seq![JavaSymSrc::Type(n, prefix, outer)], deps: seq![] };
                if k == "class_declaration"@ {
                    let body = match child_of_kind(t, n, "class_body"@) {
                        Some(b) => if n < b < t.len() {
                            body_out(t, b as int, t.children(b as int), prefix, name, q, false)
                        } else {
                            out_none()
                        },
                        None => out_none(),
                    };
                    out_cat(out_cat(out_cat(super_out(t, n, q), ifaces_out(t, n, q)), me), body)
                } else if k == "interface_declaration"@ {
                    let body = match child_of_kind(t, n, "interface_body"@) {
                        Some(b) => if n < b < t.len() {
                            body_out(t, b as int, t.children(b as int), prefix, name, q, true)
                        } else {
                            out_none()
                        },
                        None => out_none(),
                    };
                    out_cat(me, body)
                } else if k == "enum_declaration"@ {
                    let body = match child_of_kind(t, n, "enum_body"@) {
                        Some(b) => if n < b < t.len() {
                            enum_out(t, b as int, t.children(b as int), prefix, name, q)
                        } else {
                            out_none()
                        },
                        None => out_none(),
                    };
                    out_cat(out_cat(ifaces_out(t, n, q), me), body)
                } else {
                    let body = match child_of_kind(t, n, "class_body"@) {
                        Some(b) => if n < b < t.len() {
                            body_out(t, b as int, t.children(b as int), prefix, name, q, false)
                        } else {
                            out_none()
                        },
                        None => out_none(),
                    };
                    out_cat(out_cat(ifaces_out(t, n, q), me), body)
                }
            },
        }
    }
}

/// What the members among the children `cs` of a class body yield: methods
/// and (outside interfaces) constructors, and nested types.
pub open spec fn body_out(
    t: SyntaxTree,
    body: int,
    cs: Seq<usize>,
    prefix: Seq<char>,
    parent: Seq<char>,
    pq: Seq<char>,
    interface: bool,
) -> JavaOut
    decreases t.len() - body, 1int, cs.len(),
{
    if cs.len() == 0 || !(0 <= body < t.len()) {
        out_none()
    } else {
        let c = cs.last();
        let k = t.kind(c as int);
        let piece = if k == "method_declaration"@ || (!interface && k == "constructor_declaration"@) {
            if java_name_spec(t, c as int) is Some {
                JavaOut {
                    syms: seq![JavaSymSrc::Member(c as int, prefix, parent, k != "method_declaration"@)],
                    deps: seq![],
                }
            } else {
                out_none()
            }
        } else if is_java_type_decl_kind(k) {
            if body < c < t.len() {
                type_decl_out(t, c as int, pq, Some(parent))
            } else {
                out_none()
            }
        } else {
            out_none()
        };
        out_cat(body_out(t, body, cs.drop_last(), prefix, parent, pq, interface), piece)
    }
}

/// What the `enum_body_declarations` among the children `cs` of an enum
/// body yield.
pub open spec fn enum_out(
    t: SyntaxTree,
    ebody: int,
    cs: Seq<usize>,
    prefix: Seq<char>,
    parent: Seq<char>,
    pq: Seq<char>,
) -> JavaOut
    decreases t.len() - ebody, 1int, cs.len(),
{
    if cs.len() == 0 || !(0 <= ebody < t.len()) {
        out_none()
    } else {
        let c = cs.last();
        let piece = if t.kind(c as int) == "enum_body_declarations"@ && ebody < c < t.len() {
            body_out(t, c as int, t.children(c as int), prefix, parent, pq, false)
        } else {
            out_none()
        };
        out_cat(enum_out(t, ebody, cs.drop_last(), prefix, parent, pq), piece)
    }
}

/// What the top-level children `cs` of a file yield: imports and types.
pub open spec fn top_out(t: SyntaxTree, cs: Seq<usize>, prefix: Seq<char>) -> JavaOut
    decreases cs.len(),
{
    if cs.len() == 0 {
        out_none()
    } else {
        let c = cs.last();
        let k = t.kind(c as int);
        let piece = if k == "import_declaration"@ {
            JavaOut { syms: seq![], deps: seq![JavaDepSrc::Import(c as int, prefix)] }
        } else if is_java_type_decl_kind(k) {
            if 0 < c < t.len() {
                type_decl_out(t, c as int, prefix, None)
            } else {
                out_none()
            }
        } else {
            out_none()
        };
        out_cat(top_out(t, cs.drop_last(), prefix), piece)
    }
}

/// `new` is `old` followed by one symbol and one dependency per source of
/// `out`, in order, each what its source yields.
pub open spec fn java_extends(old: Ir, new: Ir, out: JavaOut, t: SyntaxTree, path: Seq<char>) -> bool {
    &&& new.symbols@.len() == old.symbols@.len() + out.syms.len()
    &&& new.dependencies@.len() == old.dependencies@.len() + out.deps.len()
    &&& forall|i: int| 0 <= i < old.symbols@.len() ==> #[trigger] new.symbols@[i] == old.symbols@[i]
    &&& forall|i: int| 0 <= i < old.dependencies@.len() ==> #[trigger] new.dependencies@[i] == old.dependencies@[i]
    &&& forall|k: int| 0 <= k < out.syms.len() ==> java_sym_from(
        #[trigger] new.symbols@[old.symbols@.len() + k],
        out.syms[k],
        t,
        path,
    )
    &&& forall|k: int| 0 <= k < out.deps.len() ==> java_dep_from(
        #[trigger] new.dependencies@[old.dependencies@.len() + k],
        out.deps[k],
        t,
        path,
    )
}

pub proof fn lemma_java_extends_trans(a: Ir, b: Ir, c: Ir, o1: JavaOut, o2: JavaOut, t: SyntaxTree, path: Seq<char>)
    requires
        java_extends(a, b, o1, t, path),
        java_extends(b, c, o2, t, path),
    ensures
        java_extends(a, c, out_cat(o1, o2), t, path),
{
    let al = a.symbols@.len() as int;
    let ad = a.dependencies@.len() as int;
    let o = out_cat(o1, o2);
    assert forall|i: int| 0 <= i < a.symbols@.len() implies #[trigger] c.symbols@[i] == a.symbols@[i] by {
        assert(c.symbols@[i] == b.symbols@[i]);
    }
    assert forall|i: int| 0 <= i < a.dependencies@.len() implies #[trigger] c.dependencies@[i] == a.dependencies@[i] by {
        assert(c.dependencies@[i] == b.dependencies@[i]);
    }
    assert forall|k: int| 0 <= k < o.syms.len() implies java_sym_from(#[trigger] c.symbols@[al + k], o.syms[k], t, path) by {
        if k < o1.syms.len() {
            assert(c.symbols@[al + k] == b.symbols@[al + k]);
        } else {
            let j = k - o1.syms.len();
            assert(b.symbols@.len() + j == al + k);
            assert(java_sym_from(c.symbols@[b.symbols@.len() + j], o2.syms[j], t, path));
        }
    }
    assert forall|k: int| 0 <= k < o.deps.len() implies java_dep_from(#[trigger] c.dependencies@[ad + k], o.deps[k], t, path) by {
        if k < o1.deps.len() {
            assert(c.dependencies@[ad + k] == b.dependencies@[ad + k]);
        } else {
            let j = k - o1.deps.len();
            assert(b.dependencies@.len() + j == ad + k);
            assert(java_dep_from(c.dependencies@[b.dependencies@.len() + j], o2.deps[j], t, path));
        }
    }
}

pub proof fn lemma_java_extends_refl(a: Ir, t: SyntaxTree, path: Seq<char>)
    ensures
        java_extends(a, a, out_none(), t, path),
{
}

/// One pushed symbol extends the IR by its source.
proof fn lemma_pushed_java_symbol(a: Ir, b: Ir, s: Symbol, src: JavaSymSrc, t: SyntaxTree, path: Seq<char>)
    requires
        b.symbols@ == a.symbols@.push(s),
        b.dependencies@ == a.dependencies@,
        java_sym_from(s, src, t, path),
    ensures
        java_extends(a, b, JavaOut { syms: seq![src], deps: seq![] }, t, path),
{
    assert(b.symbols@[a.symbols@.len() + 0int] == s);
}

/// One pushed dependency extends the IR by its source.
proof fn lemma_pushed_java_dep(a: Ir, b: Ir, d: Dependency, src: JavaDepSrc, t: SyntaxTree, path: Seq<char>)
    requires
        b.dependencies@ == a.dependencies@.push(d),
        b.symbols@ == a.symbols@,
        java_dep_from(d, src, t, path),
    ensures
        java_extends(a, b, JavaOut { syms: seq![], deps: seq![src] }, t, path),
{
    assert(b.dependencies@[a.dependencies@.len() + 0int] == d);
}

pub proof fn lemma_java_grows_trans(a: Ir, b: Ir, c: Ir, pkg: Seq<char>, path: Seq<char>)
    requires
        java_grows(a, b, pkg, path),
        java_grows(b, c, pkg, path),
    ensures
        java_grows(a, c, pkg, path),
{
    assert forall|i: int| a.symbols@.len() <= i < c.symbols@.len() implies java_symbol_ok(#[trigger] c.symbols@[i], pkg, path) by {
        if i < b.symbols@.len() {
            assert(c.symbols@[i] == b.symbols@[i]);
        }
    }
    assert forall|i: int| a.dependencies@.len() <= i < c.dependencies@.len() implies java_dep_ok(#[trigger] c.dependencies@[i], pkg, path) by {
        if i < b.dependencies@.len() {
            assert(c.dependencies@[i] == b.dependencies@[i]);
        }
    }
}

pub proof fn lemma_starts_trans(a: Seq<char>, b: Seq<char>, c: Seq<char>)
    requires
        starts_with(a, b),
        starts_with(b, c),
    ensures
        starts_with(a, c),
{
    assert(a.subrange(0, c.len() as int) =~= b.subrange(0, c.len() as int));
}

pub proof fn lemma_qualified_extends(prefix: Seq<char>, name: Seq<char>, parent: Seq<char>)
    ensures
        starts_with(qualified_spec(prefix, name), prefix),
        starts_with(member_qualified(prefix, parent, name), prefix),
{
    let q = qualified_spec(prefix, name);
    let m = member_qualified(prefix, parent, name);
    assert(q.subrange(0, prefix.len() as int) =~= prefix);
    assert(m.subrange(0, prefix.len() as int) =~= prefix);
}

fn push_java_symbol(ir: &mut Ir, s: Symbol, Ghost(pkg): Ghost<Seq<char>>, Ghost(path): Ghost<Seq<char>>)
    requires
        java_symbol_ok(s, pkg, path),
    ensures
        java_grows(*old(ir), *final(ir), pkg, path),
        final(ir).symbols@ == old(ir).symbols@.push(s),
        final(ir).dependencies@ == old(ir).dependencies@,
{
    ir.symbols.push(s);
}

fn push_java_dep(ir: &mut Ir, d: Dependency, Ghost(pkg): Ghost<Seq<char>>, Ghost(path): Ghost<Seq<char>>)
    requires
        java_dep_ok(d, pkg, path),
    ensures
        java_grows(*old(ir), *final(ir), pkg, path),
        final(ir).dependencies@ == old(ir).dependencies@.push(d),
        final(ir).symbols@ == old(ir).symbols@,
{
    ir.dependencies.push(d);
}

/// The node kinds the walk tells apart are different words.
proof fn lemma_java_kinds_distinct()
    ensures
        "method_declaration"@ != "constructor_declaration"@,
        "method_declaration"@ != "class_declaration"@,
        "method_declaration"@ != "interface_declaration"@,
        "method_declaration"@ != "enum_declaration"@,
        "method_declaration"@ != "record_declaration"@,
        "constructor_declaration"@ != "class_declaration"@,
        "constructor_declaration"@ != "interface_declaration"@,
        "constructor_declaration"@ != "enum_declaration"@,
        "constructor_declaration"@ != "record_declaration"@,
        "class_declaration"@ != "interface_declaration"@,
        "class_declaration"@ != "enum_declaration"@,
        "class_declaration"@ != "record_declaration"@,
        "interface_declaration"@ != "enum_declaration"@,
        "interface_declaration"@ != "record_declaration"@,
        "enum_declaration"@ != "record_declaration"@,
        "import_declaration"@ != "class_declaration"@,
        "import_declaration"@ != "interface_declaration"@,
        "import_declaration"@ != "enum_declaration"@,
        "import_declaration"@ != "record_declaration"@,
{
    reveal_strlit("method_declaration");
    reveal_strlit("constructor_declaration");
    reveal_strlit("class_declaration");
    reveal_strlit("interface_declaration");
    reveal_strlit("enum_declaration");
    reveal_strlit("record_declaration");
    reveal_strlit("import_declaration");
    assert("method_declaration"@[0] != "constructor_declaration"@[0]);
    assert("method_declaration"@[0] != "class_declaration"@[0]);
    assert("method_declaration"@[0] != "interface_declaration"@[0]);
    assert("method_declaration"@[0] != "enum_declaration"@[0]);
    assert("method_declaration"@[0] != "record_declaration"@[0]);
    assert("constructor_declaration"@[1] != "class_declaration"@[1]);
    assert("constructor_declaration"@[0] != "interface_declaration"@[0]);
    assert("constructor_declaration"@[0] != "enum_declaration"@[0]);
    assert("constructor_declaration"@[0] != "record_declaration"@[0]);
    assert("class_declaration"@[0] != "interface_declaration"@[0]);
    assert("class_declaration"@[0] != "enum_declaration"@[0]);
    assert("class_declaration"@[0] != "record_declaration"@[0]);
    assert("interface_declaration"@[0] != "enum_declaration"@[0]);
    assert("interface_declaration"@[0] != "record_declaration"@[0]);
    assert("enum_declaration"@[0] != "record_declaration"@[0]);
    assert("import_declaration"@[0] != "class_declaration"@[0]);
    assert("import_declaration"@[1] != "interface_declaration"@[1]);
    assert("import_declaration"@[0] != "enum_declaration"@[0]);
    assert("import_declaration"@[0] != "record_declaration"@[0]);
}

// ---------------------------------------------------------------------------
// Extends / implements
// ---------------------------------------------------------------------------

/// The class a declaration extends.
fn superclass_deps(t: &SyntaxTree, n: usize, path: &str, qualified: &str, ir: &mut Ir, Ghost(pkg): Ghost<Seq<char>>)
    requires
        t.wf(),
        n < t.len(),
        starts_with(qualified@, pkg),
    ensures
        java_grows(*old(ir), *final(ir), pkg, path@),
        java_extends(*old(ir), *final(ir), super_out(*t, n as int, qualified@), *t, path@),
{
    let ghost start = *ir;
    match find_child_by_kind(t, n, "superclass") {
        Some(sc) => match find_child_by_kind(t, sc, "type_identifier") {
            Some(ti) => {
                let d = Dependency {
                    from_qualified: owned(qualified),
                    to_name: node_text(t, ti),
                    kind: DepKind::Implements,
                    loc: loc_of(t, n, path),
                };
                let ghost dv = d;
                push_java_dep(ir, d, Ghost(pkg), Ghost(path@));
                proof {
                    lemma_pushed_java_dep(start, *ir, dv, JavaDepSrc::Super(n as int, qualified@), *t, path@);
                }
            },
            None => {
                proof {
                    lemma_java_extends_refl(start, *t, path@);
                }
            },
        },
        None => {
            proof {
                lemma_java_extends_refl(start, *t, path@);
            }
        },
    }
}

/// The interfaces a declaration implements.
fn super_interfaces_deps(t: &SyntaxTree, n: usize, path: &str, qualified: &str, ir: &mut Ir, Ghost(pkg): Ghost<Seq<char>>)
    requires
        t.wf(),
        n < t.len(),
        starts_with(qualified@, pkg),
    ensures
        java_grows(*old(ir), *final(ir), pkg, path@),
        java_extends(*old(ir), *final(ir), ifaces_out(*t, n as int, qualified@), *t, path@),
{
    let ghost start = *ir;
    let ifaces = match find_child_by_kind(t, n, "super_interfaces") {
        Some(x) => x,
        None => {
            proof {
                lemma_java_extends_refl(start, *t, path@);
            }
            return;
        },
    };
    let tl = match find_child_by_kind(t, ifaces, "type_list") {
        Some(x) => x,
        None => {
            proof {
                lemma_java_extends_refl(start, *t, path@);
            }
            return;
        },
    };
    let cs = &t.nodes[tl].children;
    let ghost all = t.children(tl as int);
    proof {
        lemma_children_after(*t, tl as int);
        assert(all.take(0) =~= Seq::<usize>::empty());
        assert(iface_list(*t, n as int, all.take(0), qualified@) =~= Seq::<JavaDepSrc>::empty());
        lemma_java_extends_refl(start, *t, path@);
    }
    let mut i: usize = 0;
    while i < cs.len()
        invariant
            i <= cs.len(),
            t.wf(),
            n < t.len(),
            all == cs@,
            starts_with(qualified@, pkg),
            forall|j: int| 0 <= j < all.len() ==> tl < #[trigger] all[j] < t.len(),
            java_grows(*old(ir), *ir, pkg, path@),
            java_extends(
                *old(ir),
                *ir,
                JavaOut { syms: seq![], deps: iface_list(*t, n as int, all.take(i as int), qualified@) },
                *t,
                path@,
            ),
        decreases cs.len() - i,
    {
        let c = cs[i];
        assert(all[i as int] == c);
        let ghost before = *ir;
        let ghost piece: Seq<JavaDepSrc> = if t.kind(c as int) == "type_identifier"@ || t.kind(c as int) == "generic_type"@ {
            seq![JavaDepSrc::Iface(n as int, c as int, qualified@)]
        } else {
            seq![]
        };
        if kind_is(t, c, "type_identifier") || kind_is(t, c, "generic_type") {
            let d = Dependency {
                from_qualified: owned(qualified),
                to_name: node_text(t, c),
                kind: DepKind::Implements,
                loc: loc_of(t, n, path),
            };
            let ghost dv = d;
            push_java_dep(ir, d, Ghost(pkg), Ghost(path@));
            proof {
                lemma_java_grows_trans(*old(ir), before, *ir, pkg, path@);
                lemma_pushed_java_dep(before, *ir, dv, JavaDepSrc::Iface(n as int, c as int, qualified@), *t, path@);
            }
        } else {
            proof {
                lemma_java_extends_refl(before, *t, path@);
            }
        }
        proof {
            let o1 = JavaOut { syms: seq![], deps: iface_list(*t, n as int, all.take(i as int), qualified@) };
            let o2 = JavaOut { syms: seq![], deps: piece };
            if piece.len() == 0 {
                assert(o2 == out_none()) by {
                    assert(piece =~= Seq::<JavaDepSrc>::empty());
                }
            }
            lemma_java_extends_trans(*old(ir), before, *ir, o1, o2, *t, path@);
            assert(all.take(i + 1).drop_last() =~= all.take(i as int));
            assert(all.take(i + 1).last() == c);
            assert(out_cat(o1, o2).syms =~= Seq::<JavaSymSrc>::empty());
            assert(out_cat(o1, o2).deps =~= iface_list(*t, n as int, all.take(i + 1), qualified@));
        }
        i += 1;
    }
    assert(all.take(cs.len() as int) =~= all);
}

// ---------------------------------------------------------------------------
// Type declarations and their members
// ---------------------------------------------------------------------------

fn qualified_in(prefix: &str, name: &str) -> (r: String)
    ensures
        r@ == qualified_spec(prefix@, name@),
{
    crate::parser::go::qualified(prefix, name)
}

/// Members of a class body (or an enum's body declarations): methods,
/// constructors and nested types.
fn class_body_members(
    t: &SyntaxTree,
    body: usize,
    path: &str,
    prefix: &str,
    parent: &str,
    parent_qualified: &str,
    interface: bool,
    ir: &mut Ir,
    Ghost(pkg): Ghost<Seq<char>>,
)
    requires
        t.wf(),
        body < t.len(),
        starts_with(prefix@, pkg),
        starts_with(parent_qualified@, pkg),
    ensures
        java_grows(*old(ir), *final(ir), pkg, path@),
        java_extends(
            *old(ir),
            *final(ir),
            body_out(*t, body as int, t.children(body as int), prefix@, parent@, parent_qualified@, interface),
            *t,
            path@,
        ),
    decreases t.len() - body, 1int,
{
    proof {
        lemma_java_kinds_distinct();
    }
    let cs = &t.nodes[body].children;
    let ghost all = t.children(body as int);
    proof {
        lemma_children_after(*t, body as int);
        assert(all.take(0) =~= Seq::<usize>::empty());
        lemma_java_extends_refl(*old(ir), *t, path@);
    }
    let mut i: usize = 0;
    while i < cs.len()
        invariant
            i <= cs.len(),
            t.wf(),
            body < t.len(),
            all == cs@,
            starts_with(prefix@, pkg),
            starts_with(parent_qualified@, pkg),
            forall|j: int| 0 <= j < all.len() ==> body < #[trigger] all[j] < t.len(),
            java_grows(*old(ir), *ir, pkg, path@),
            java_extends(
                *old(ir),
                *ir,
                body_out(*t, body as int, all.take(i as int), prefix@, parent@, parent_qualified@, interface),
                *t,
                path@,
            ),
        decreases cs.len() - i,
    {
        let c = cs[i];
        assert(all[i as int] == c);
        let ghost before = *ir;
        let ghost k = t.kind(c as int);
        let ghost piece = if k == "method_declaration"@ || (!interface && k == "constructor_declaration"@) {
            if java_name_spec(*t, c as int) is Some {
                JavaOut {
                    syms: seq![JavaSymSrc::Member(c as int, prefix@, parent@, k != "method_declaration"@)],
                    deps: seq![],
                }
            } else {
                out_none()
            }
        } else if is_java_type_decl_kind(k) {
            if body < c < t.len() {
                type_decl_out(*t, c as int, parent_qualified@, Some(parent@))
            } else {
                out_none()
            }
        } else {
            out_none()
        };
        if kind_is(t, c, "method_declaration") || (!interface && kind_is(t, c, "constructor_declaration")) {
            let ctor = !kind_is(t, c, "method_declaration");
            match extract_member(t, c, path, prefix, parent, ctor) {
                Some(sym) => {
                    proof {
                        lemma_qualified_extends(prefix@, sym.name@, parent@);
                        lemma_starts_trans(sym.qualified_name@, prefix@, pkg);
                    }
                    let ghost sv = sym;
                    push_java_symbol(ir, sym, Ghost(pkg), Ghost(path@));
                    proof {
                        lemma_pushed_java_symbol(
                            before,
                            *ir,
                            sv,
                            JavaSymSrc::Member(c as int, prefix@, parent@, ctor),
                            *t,
                            path@,
                        );
                    }
                },
                None => {
                    proof {
                        lemma_java_extends_refl(before, *t, path@);
                    }
                },
            }
        } else if kind_is(t, c, "class_declaration") || kind_is(t, c, "interface_declaration") || kind_is(
            t,
            c,
            "enum_declaration",
        ) || kind_is(t, c, "record_declaration") {
            extract_type_decl(t, c, path, parent_qualified, Some(parent), ir, Ghost(pkg));
        } else {
            proof {
                lemma_java_extends_refl(before, *t, path@);
            }
        }
        proof {
            lemma_java_grows_trans(*old(ir), before, *ir, pkg, path@);
            let o1 = body_out(*t, body as int, all.take(i as int), prefix@, parent@, parent_qualified@, interface);
            lemma_java_extends_trans(*old(ir), before, *ir, o1, piece, *t, path@);
            assert(all.take(i + 1).drop_last() =~= all.take(i as int));
            assert(all.take(i + 1).last() == c);
            assert(out_cat(o1, piece) == body_out(
                *t,
                body as int,
                all.take(i + 1),
                prefix@,
                parent@,
                parent_qualified@,
                interface,
            ));
        }
        i += 1;
    }
    assert(all.take(cs.len() as int) =~= all);
}

pub open spec fn opt_str_view(o: Option<&str>) -> Option<Seq<char>> {
    match o {
        Some(x) => Some(x@),
        None => None,
    }
}

/// A class, interface, enum or record declaration: its supertypes, its own
/// symbol, then its members.
fn extract_type_decl(
    t: &SyntaxTree,
    n: usize,
    path: &str,
    prefix: &str,
    outer: Option<&str>,
    ir: &mut Ir,
    Ghost(pkg): Ghost<Seq<char>>,
)
    requires
        t.wf(),
        n < t.len(),
        starts_with(prefix@, pkg),
    ensures
        java_grows(*old(ir), *final(ir), pkg, path@),
        java_extends(*old(ir), *final(ir), type_decl_out(*t, n as int, prefix@, opt_str_view(outer)), *t, path@),
    decreases t.len() - n, 0int,
{
    proof {
        lemma_java_kinds_distinct();
    }
    let ghost start = *ir;
    let name = match name_field(t, n) {
        Some(x) => x,
        None => {
            proof {
                lemma_java_extends_refl(start, *t, path@);
            }
            return;
        },
    };
    let ghost nm = child_in_field(*t, n as int, "name"@)->0;
    let (vis, attrs) = extract_modifiers(t, n);
    let qualified_name = qualified_in(prefix, name.as_str());
    proof {
        lemma_qualified_extends(prefix@, name@, seq![]);
        lemma_starts_trans(qualified_name@, prefix@, pkg);
    }
    let ghost q = qualified_name@;
    let ghost ov = opt_str_view(outer);
    let ghost me = JavaOut { syms: seq![JavaSymSrc::Type(n as int, prefix@, ov)], deps: seq![] };
    let is_class = kind_is(t, n, "class_declaration");
    let is_iface = kind_is(t, n, "interface_declaration");
    let is_enum = kind_is(t, n, "enum_declaration");
    let parent = match outer {
        Some(o) => Some(owned(o)),
        None => None,
    };
    if is_class {
        let fields = extract_class_fields(t, n);
        superclass_deps(t, n, path, qualified_name.as_str(), ir, Ghost(pkg));
        let ghost a = *ir;
        super_interfaces_deps(t, n, path, qualified_name.as_str(), ir, Ghost(pkg));
        proof {
            lemma_java_grows_trans(start, a, *ir, pkg, path@);
            lemma_java_extends_trans(start, a, *ir, super_out(*t, n as int, q), ifaces_out(*t, n as int, q), *t, path@);
        }
        let sym = Symbol {
            name: name.clone(),
            qualified_name: qualified_name.clone(),
            kind: owned("class"),
            loc: loc_of(t, n, path),
            visibility: vis,
            signature: None,
            parent,
            attributes: attrs,
            fields,
            params: Vec::new(),
            return_type: None,
        };
        assert(params_view(sym.params@) =~= Seq::<(Seq<char>, Seq<char>)>::empty());
        assert(is_java_type_symbol(sym, *t, n as int, path@, prefix@, ov));
        let ghost b = *ir;
        let ghost sv = sym;
        push_java_symbol(ir, sym, Ghost(pkg), Ghost(path@));
        proof {
            lemma_java_grows_trans(start, b, *ir, pkg, path@);
            lemma_pushed_java_symbol(b, *ir, sv, JavaSymSrc::Type(n as int, prefix@, ov), *t, path@);
            lemma_java_extends_trans(
                start,
                b,
                *ir,
                out_cat(super_out(*t, n as int, q), ifaces_out(*t, n as int, q)),
                me,
                *t,
                path@,
            );
        }
        let ghost c0 = *ir;
        match find_child_by_kind(t, n, "class_body") {
            Some(body) => {
                class_body_members(t, body, path, prefix, name.as_str(), qualified_name.as_str(), false, ir, Ghost(pkg));
                proof {
                    lemma_java_grows_trans(start, c0, *ir, pkg, path@);
                }
            },
            None => {
                proof {
                    lemma_java_extends_refl(c0, *t, path@);
                }
            },
        }
        proof {
            let body_o = match child_of_kind(*t, n as int, "class_body"@) {
                Some(b) => if n < b < t.len() {
                    body_out(*t, b as int, t.children(b as int), prefix@, t.text(nm as int), q, false)
                } else {
                    out_none()
                },
                None => out_none(),
            };
            lemma_java_extends_trans(
                start,
                c0,
                *ir,
                out_cat(out_cat(super_out(*t, n as int, q), ifaces_out(*t, n as int, q)), me),
                body_o,
                *t,
                path@,
            );
        }
    } else if is_iface {
        let display = match find_child_by_kind(t, n, "type_parameters") {
            Some(tp) => {
                let mut d = name.clone();
                push_str(&mut d, t.nodes[tp].text.as_str());
                d
            },
            None => name.clone(),
        };
        let sym = Symbol {
            name: display,
            qualified_name: qualified_name.clone(),
            kind: owned("interface"),
            loc: loc_of(t, n, path),
            visibility: vis,
            signature: None,
            parent,
            attributes: attrs,
            fields: Vec::new(),
            params: Vec::new(),
            return_type: None,
        };
        assert(params_view(sym.params@) =~= Seq::<(Seq<char>, Seq<char>)>::empty());
        assert(fields_view(sym.fields@) =~= Seq::<(Seq<char>, Seq<char>, Visibility)>::empty());
        assert(is_java_type_symbol(sym, *t, n as int, path@, prefix@, ov));
        let ghost sv = sym;
        push_java_symbol(ir, sym, Ghost(pkg), Ghost(path@));
        proof {
            lemma_pushed_java_symbol(start, *ir, sv, JavaSymSrc::Type(n as int, prefix@, ov), *t, path@);
        }
        let ghost c0 = *ir;
        match find_child_by_kind(t, n, "interface_body") {
            Some(body) => {
                class_body_members(t, body, path, prefix, name.as_str(), qualified_name.as_str(), true, ir, Ghost(pkg));
                proof {
                    lemma_java_grows_trans(start, c0, *ir, pkg, path@);
                }
            },
            None => {
                proof {
                    lemma_java_extends_refl(c0, *t, path@);
                }
            },
        }
        proof {
            let body_o = match child_of_kind(*t, n as int, "interface_body"@) {
                Some(b) => if n < b < t.len() {
                    body_out(*t, b as int, t.children(b as int), prefix@, t.text(nm as int), q, true)
                } else {
                    out_none()
                },
                None => out_none(),
            };
            lemma_java_extends_trans(start, c0, *ir, me, body_o, *t, path@);
        }
    } else if is_enum {
        super_interfaces_deps(t, n, path, qualified_name.as_str(), ir, Ghost(pkg));
        let sym = Symbol {
            name: name.clone(),
            qualified_name: qualified_name.clone(),
            kind: owned("enum"),
            loc: loc_of(t, n, path),
            visibility: vis,
            signature: None,
            parent,
            attributes: attrs,
            fields: Vec::new(),
            params: Vec::new(),
            return_type: None,
        };
        assert(params_view(sym.params@) =~= Seq::<(Seq<char>, Seq<char>)>::empty());
        assert(fields_view(sym.fields@) =~= Seq::<(Seq<char>, Seq<char>, Visibility)>::empty());
        assert(is_java_type_symbol(sym, *t, n as int, path@, prefix@, ov));
        let ghost b = *ir;
        let ghost sv = sym;
        push_java_symbol(ir, sym, Ghost(pkg), Ghost(path@));
        proof {
            lemma_java_grows_trans(start, b, *ir, pkg, path@);
            lemma_pushed_java_symbol(b, *ir, sv, JavaSymSrc::Type(n as int, prefix@, ov), *t, path@);
            lemma_java_extends_trans(start, b, *ir, ifaces_out(*t, n as int, q), me, *t, path@);
        }
        let ghost c0 = *ir;
        match find_child_by_kind(t, n, "enum_body") {
            Some(body) => {
                let cs = &t.nodes[body].children;
                let ghost all = t.children(body as int);
                proof {
                    lemma_children_after(*t, body as int);
                    assert(all.take(0) =~= Seq::<usize>::empty());
                    lemma_java_extends_refl(c0, *t, path@);
                }
                let mut i: usize = 0;
                while i < cs.len()
                    invariant
                        i <= cs.len(),
                        t.wf(),
                        n < t.len(),
                        n < body < t.len(),
                        all == cs@,
                        starts_with(prefix@, pkg),
                        starts_with(qualified_name@, pkg),
                        forall|j: int| 0 <= j < all.len() ==> body < #[trigger] all[j] < t.len(),
                        java_grows(c0, *ir, pkg, path@),
                        java_extends(
                            c0,
                            *ir,
                            enum_out(*t, body as int, all.take(i as int), prefix@, name@, qualified_name@),
                            *t,
                            path@,
                        ),
                    decreases cs.len() - i,
                {
                    let c = cs[i];
                    assert(all[i as int] == c);
                    let ghost before = *ir;
                    let ghost piece = if t.kind(c as int) == "enum_body_declarations"@ && body < c < t.len() {
                        body_out(*t, c as int, t.children(c as int), prefix@, name@, qualified_name@, false)
                    } else {
                        out_none()
                    };
                    if kind_is(t, c, "enum_body_declarations") {
                        class_body_members(t, c, path, prefix, name.as_str(), qualified_name.as_str(), false, ir, Ghost(pkg));
                        proof {
                            lemma_java_grows_trans(c0, before, *ir, pkg, path@);
                        }
                    } else {
                        proof {
                            lemma_java_extends_refl(before, *t, path@);
                        }
                    }
                    proof {
                        let o1 = enum_out(*t, body as int, all.take(i as int), prefix@, name@, qualified_name@);
                        lemma_java_extends_trans(c0, before, *ir, o1, piece, *t, path@);
                        assert(all.take(i + 1).drop_last() =~= all.take(i as int));
                        assert(all.take(i + 1).last() == c);
                        assert(out_cat(o1, piece) == enum_out(
                            *t,
                            body as int,
                            all.take(i + 1),
                            prefix@,
                            name@,
                            qualified_name@,
                        ));
                    }
                    i += 1;
                }
                proof {
                    assert(all.take(cs.len() as int) =~= all);
                    lemma_java_grows_trans(start, c0, *ir, pkg, path@);
                }
            },
            None => {
                proof {
                    lemma_java_extends_refl(c0, *t, path@);
                }
            },
        }
        proof {
            let body_o = match child_of_kind(*t, n as int, "enum_body"@) {
                Some(b) => if n < b < t.len() {
                    enum_out(*t, b as int, t.children(b as int), prefix@, t.text(nm as int), q)
                } else {
                    out_none()
                },
                None => out_none(),
            };
            lemma_java_extends_trans(start, c0, *ir, out_cat(ifaces_out(*t, n as int, q), me), body_o, *t, path@);
        }
    } else {
        let components = extract_formal_params(t, n);
        let mut fields: Vec<Field> = Vec::new();
        let mut i: usize = 0;
        while i < components.len()
            invariant
                i <= components.len(),
                fields@.len() == i,
                forall|j: int| 0 <= j < i ==> (#[trigger] fields@[j]).name@ == components@[j].name@
                    && fields@[j].type_str@ == components@[j].type_str@ && fields@[j].visibility == Visibility::Private,
            decreases components.len() - i,
        {
            fields.push(Field {
                name: components[i].name.clone(),
                type_str: components[i].type_str.clone(),
                visibility: Visibility::Private,
            });
            i += 1;
        }
        assert(fields_view(fields@) =~= record_fields(params_view(components@)));
        super_interfaces_deps(t, n, path, qualified_name.as_str(), ir, Ghost(pkg));
        let sym = Symbol {
            name: name.clone(),
            qualified_name: qualified_name.clone(),
            kind: owned("record"),
            loc: loc_of(t, n, path),
            visibility: vis,
            signature: None,
            parent,
            attributes: attrs,
            fields,
            params: components,
            return_type: None,
        };
        assert(is_java_type_symbol(sym, *t, n as int, path@, prefix@, ov));
        let ghost b = *ir;
        let ghost sv = sym;
        push_java_symbol(ir, sym, Ghost(pkg), Ghost(path@));
        proof {
            lemma_java_grows_trans(start, b, *ir, pkg, path@);
            lemma_pushed_java_symbol(b, *ir, sv, JavaSymSrc::Type(n as int, prefix@, ov), *t, path@);
            lemma_java_extends_trans(start, b, *ir, ifaces_out(*t, n as int, q), me, *t, path@);
        }
        let ghost c0 = *ir;
        match find_child_by_kind(t, n, "class_body") {
            Some(body) => {
                class_body_members(t, body, path, prefix, name.as_str(), qualified_name.as_str(), false, ir, Ghost(pkg));
                proof {
                    lemma_java_grows_trans(start, c0, *ir, pkg, path@);
                }
            },
            None => {
                proof {
                    lemma_java_extends_refl(c0, *t, path@);
                }
            },
        }
        proof {
            let body_o = match child_of_kind(*t, n as int, "class_body"@) {
                Some(b) => if n < b < t.len() {
                    body_out(*t, b as int, t.children(b as int), prefix@, t.text(nm as int), q, false)
                } else {
                    out_none()
                },
                None => out_none(),
            };
            lemma_java_extends_trans(start, c0, *ir, out_cat(ifaces_out(*t, n as int, q), me), body_o, *t, path@);
        }
    }
}

// ---------------------------------------------------------------------------
// Package and top level
// ---------------------------------------------------------------------------

/// The name in the first `package_declaration` among `cs` that has one.
pub open spec fn package_in(t: SyntaxTree, cs: Seq<usize>) -> Option<Seq<char>>
    decreases cs.len(),
{
    if cs.len() == 0 {
        None
    } else if t.kind(cs[0] as int) == "package_declaration"@ && package_name_in(t, t.children(cs[0] as int)) is Some {
        package_name_in(t, t.children(cs[0] as int))
    } else {
        package_in(t, cs.drop_first())
    }
}

/// The text of the first scoped identifier or identifier among `cs`.
pub open spec fn package_name_in(t: SyntaxTree, cs: Seq<usize>) -> Option<Seq<char>>
    decreases cs.len(),
{
    if cs.len() == 0 {
        None
    } else if t.kind(cs[0] as int) == "scoped_identifier"@ || t.kind(cs[0] as int) == "identifier"@ {
        Some(t.text(cs[0] as int))
    } else {
        package_name_in(t, cs.drop_first())
    }
}

/// The package declared by a file.
pub open spec fn java_package_spec(t: SyntaxTree) -> Option<Seq<char>> {
    package_in(t, t.children(0))
}

fn package_name(t: &SyntaxTree, d: usize) -> (r: Option<String>)
    requires
        t.wf(),
        d < t.len(),
    ensures
        match r {
            Some(x) => package_name_in(*t, t.children(d as int)) == Some(x@),
            None => package_name_in(*t, t.children(d as int)) is None,
        },
{
    let cs = &t.nodes[d].children;
    let ghost all = t.children(d as int);
    proof {
        lemma_children_after(*t, d as int);
    }
    let mut i: usize = 0;
    assert(all.skip(0) =~= all);
    while i < cs.len()
        invariant
            i <= cs.len(),
            t.wf(),
            all == cs@,
            all == t.children(d as int),
            forall|j: int| 0 <= j < all.len() ==> d < #[trigger] all[j] < t.len(),
            package_name_in(*t, all) == package_name_in(*t, all.skip(i as int)),
        decreases cs.len() - i,
    {
        assert(all.skip(i as int)[0] == all[i as int]);
        assert(all.skip(i as int).drop_first() =~= all.skip(i + 1));
        let c = cs[i];
        assert(all[i as int] == c);
        if kind_is(t, c, "scoped_identifier") || kind_is(t, c, "identifier") {
            return Some(node_text(t, c));
        }
        i += 1;
    }
    assert(all.skip(i as int) =~= Seq::<usize>::empty());
    None
}

/// The package a file declares, if any.
pub fn extract_package(t: &SyntaxTree) -> (r: Option<String>)
    requires
        t.wf(),
        t.len() > 0,
    ensures
        match r {
            Some(p) => java_package_spec(*t) == Some(p@),
            None => java_package_spec(*t) is None,
        },
{
    let cs = &t.nodes[0].children;
    let ghost all = t.children(0);
    proof {
        lemma_children_after(*t, 0);
    }
    let mut i: usize = 0;
    assert(all.skip(0) =~= all);
    while i < cs.len()
        invariant
            i <= cs.len(),
            t.wf(),
            all == cs@,
            all == t.children(0),
            forall|j: int| 0 <= j < all.len() ==> 0 < #[trigger] all[j] < t.len(),
            java_package_spec(*t) == package_in(*t, all.skip(i as int)),
        decreases cs.len() - i,
    {
        assert(all.skip(i as int)[0] == all[i as int]);
        assert(all.skip(i as int).drop_first() =~= all.skip(i + 1));
        let c = cs[i];
        assert(all[i as int] == c);
        if kind_is(t, c, "package_declaration") {
            match package_name(t, c) {
                Some(p) => {
                    return Some(p);
                },
                None => {},
            }
        }
        i += 1;
    }
    assert(all.skip(i as int) =~= Seq::<usize>::empty());
    None
}

/// The package prefix of a file: the declared package, else the one its
/// path implies.
pub open spec fn java_prefix_spec(t: SyntaxTree, path: Seq<char>) -> Seq<char> {
    match java_package_spec(t) {
        Some(p) => p,
        None => package_prefix_spec(path),
    }
}

/// A file's IR is exactly what its top-level imports and type
/// declarations yield, in order (see [`top_out`]), under the file's
/// package prefix.
pub open spec fn java_ir_exact(ir: Ir, t: SyntaxTree, path: Seq<char>) -> bool {
    let o = top_out(t, t.children(0), java_prefix_spec(t, path));
    &&& ir.symbols@.len() == o.syms.len()
    &&& forall|k: int| 0 <= k < o.syms.len() ==> java_sym_from(#[trigger] ir.symbols@[k], o.syms[k], t, path)
    &&& ir.dependencies@.len() == o.deps.len()
    &&& forall|k: int| 0 <= k < o.deps.len() ==> java_dep_from(#[trigger] ir.dependencies@[k], o.deps[k], t, path)
}

/// The IR of a Java file from its syntax tree.
pub fn extract_ir(t: &SyntaxTree, path: &str) -> (r: Ir)
    requires
        t.wf(),
        t.len() > 0,
    ensures
        java_ir_ok(r, java_prefix_spec(*t, path@), path@),
        java_ir_exact(r, *t, path@),
{
    proof {
        lemma_java_kinds_distinct();
    }
    let prefix = match extract_package(t) {
        Some(p) => p,
        None => package_prefix_from_path(path),
    };
    let ghost pkg = prefix@;
    let mut ir = Ir::new();
    let ghost start = ir;
    let cs = &t.nodes[0].children;
    let ghost all = t.children(0);
    proof {
        lemma_children_after(*t, 0);
        assert(prefix@.subrange(0, prefix@.len() as int) =~= prefix@);
        assert(all.take(0) =~= Seq::<usize>::empty());
        lemma_java_extends_refl(start, *t, path@);
    }
    let mut i: usize = 0;
    while i < cs.len()
        invariant
            i <= cs.len(),
            t.wf(),
            all == cs@,
            all == t.children(0),
            pkg == prefix@,
            start.symbols@.len() == 0,
            start.dependencies@.len() == 0,
            starts_with(prefix@, pkg),
            forall|j: int| 0 <= j < all.len() ==> 0 < #[trigger] all[j] < t.len(),
            java_ir_ok(ir, pkg, path@),
            java_extends(start, ir, top_out(*t, all.take(i as int), pkg), *t, path@),
        decreases cs.len() - i,
    {
        let c = cs[i];
        assert(all[i as int] == c);
        let ghost before = ir;
        let ghost k = t.kind(c as int);
        let ghost piece = if k == "import_declaration"@ {
            JavaOut { syms: seq![], deps: seq![JavaDepSrc::Import(c as int, pkg)] }
        } else if is_java_type_decl_kind(k) {
            if 0 < c < t.len() {
                type_decl_out(*t, c as int, pkg, None)
            } else {
                out_none()
            }
        } else {
            out_none()
        };
        if kind_is(t, c, "import_declaration") {
            let d = extract_import(t, c, path, prefix.as_str());
            let ghost dv = d;
            push_java_dep(&mut ir, d, Ghost(pkg), Ghost(path@));
            proof {
                lemma_pushed_java_dep(before, ir, dv, JavaDepSrc::Import(c as int, pkg), *t, path@);
            }
        } else if kind_is(t, c, "class_declaration") || kind_is(t, c, "interface_declaration") || kind_is(
            t,
            c,
            "enum_declaration",
        ) || kind_is(t, c, "record_declaration") {
            extract_type_decl(t, c, path, prefix.as_str(), None, &mut ir, Ghost(pkg));
            assert(opt_str_view(None) == None::<Seq<char>>);
        } else {
            proof {
                lemma_java_extends_refl(before, *t, path@);
            }
        }
        proof {
            assert forall|k: int| 0 <= k < ir.symbols@.len() implies java_symbol_ok(#[trigger] ir.symbols@[k], pkg, path@) by {
                if k < before.symbols@.len() {
                    assert(ir.symbols@[k] == before.symbols@[k]);
                }
            }
            assert forall|k: int| 0 <= k < ir.dependencies@.len() implies java_dep_ok(#[trigger] ir.dependencies@[k], pkg, path@) by {
                if k < before.dependencies@.len() {
                    assert(ir.dependencies@[k] == before.dependencies@[k]);
                }
            }
            let o1 = top_out(*t, all.take(i as int), pkg);
            lemma_java_extends_trans(start, before, ir, o1, piece, *t, path@);
            assert(all.take(i + 1).drop_last() =~= all.take(i as int));
            assert(all.take(i + 1).last() == c);
            assert(out_cat(o1, piece) == top_out(*t, all.take(i + 1), pkg));
        }
        i += 1;
    }
    proof {
        assert(all.take(cs.len() as int) =~= all);
        let o = top_out(*t, t.children(0), pkg);
        assert forall|k: int| 0 <= k < o.syms.len() implies java_sym_from(#[trigger] ir.symbols@[k], o.syms[k], *t, path@) by {
            assert(ir.symbols@[start.symbols@.len() + k] == ir.symbols@[k]);
        }
        assert forall|k: int| 0 <= k < o.deps.len() implies java_dep_from(#[trigger] ir.dependencies@[k], o.deps[k], *t, path@) by {
            assert(ir.dependencies@[start.dependencies@.len() + k] == ir.dependencies@[k]);
        }
    }
    ir
}

/// Parse a Java source file and return the IR.
pub fn parse_file(path: &str, source: &str) -> (r: Result<Ir, String>)
    ensures
        r matches Ok(ir) ==> forall|i: int| 0 <= i < ir.symbols@.len() ==> {
            &&& (#[trigger] ir.symbols@[i]).loc.file@ == path@
            &&& is_java_kind(ir.symbols@[i].kind@)
        },
        r is Ok <==> crate::parser::grammar::grammar_loads(crate::parser::grammar::grammar_id(crate::parser::grammar::Grammar::Java)),
        r matches Ok(ir) ==> exists|tr: SyntaxTree| tr.wf() && tr.len() > 0 && crate::parser::grammar::tree_view(tr) == crate::parser::grammar::ts_layout(
            crate::parser::grammar::grammar_id(crate::parser::grammar::Grammar::Java),
            source@,
        ) && #[trigger] java_ir_exact(ir, tr, path@),
{
    match crate::parser::grammar::build_tree(crate::parser::grammar::Grammar::Java, source) {
        Ok(t) => {
            let ir = extract_ir(&t, path);
            assert forall|i: int| 0 <= i < ir.symbols@.len() implies {
                &&& (#[trigger] ir.symbols@[i]).loc.file@ == path@
                &&& is_java_kind(ir.symbols@[i].kind@)
            } by {
                assert(java_symbol_ok(ir.symbols@[i], java_prefix_spec(t, path@), path@));
            }
            let r = Ok(ir);
            proof {
                let gi = r->Ok_0;
                assert(t.wf() && t.len() > 0 && crate::parser::grammar::tree_view(t) == crate::parser::grammar::ts_layout(crate::parser::grammar::grammar_id(crate::parser::grammar::Grammar::Java), source@) && java_ir_exact(gi, t, path@));
            }
            r
        },
        Err(e) => Err(crate::parser::grammar::tree_error_message(e, path)),
    }
}

} // verus!

verus! {

/// A Java access keyword.
pub open spec fn access_keyword(k: Seq<char>) -> bool {
    k == "public"@ || k == "private"@ || k == "protected"@
}

/// The node at position `i` of `cs` is the keyword `kw` and no access
/// keyword follows it.
pub open spec fn last_access_keyword_is(t: SyntaxTree, cs: Seq<usize>, kw: Seq<char>) -> bool {
    exists|i: int| 0 <= i < cs.len() && #[trigger] t.kind(cs[i] as int) == kw && forall|j: int|
        i < j < cs.len() ==> !access_keyword(#[trigger] t.kind(cs[j] as int))
}

/// The last access keyword among the modifiers decides: `public` gives
/// public, `private` private, `protected` package-level; without any, the
/// member is package-private.
#[verifier::spinoff_prover]
#[verifier::rlimit(50)]
pub proof fn lemma_java_visibility_cases(t: SyntaxTree, cs: Seq<usize>)
    ensures
        vis_in(t, cs) == Visibility::Public <==> last_access_keyword_is(t, cs, "public"@),
        vis_in(t, cs) == Visibility::Private <==> last_access_keyword_is(t, cs, "private"@),
        vis_in(t, cs) == Visibility::Crate <==> (last_access_keyword_is(t, cs, "protected"@) || forall|j: int|
            0 <= j < cs.len() ==> !access_keyword(#[trigger] t.kind(cs[j] as int))),
    decreases cs.len(),
{
    reveal_strlit("public");
    reveal_strlit("private");
    reveal_strlit("protected");
    assert("public"@ != "private"@) by {
        assert("public"@[1] != "private"@[1]);
    }
    assert("public"@ != "protected"@) by {
        assert("public"@.len() != "protected"@.len());
    }
    assert("private"@ != "protected"@) by {
        assert("private"@[2] != "protected"@[2]);
    }
    if cs.len() > 0 {
        let d = cs.drop_last();
        let n = cs.len() - 1;
        let k = t.kind(cs[n] as int);
        lemma_java_visibility_cases(t, d);
        // A keyword among the earlier modifiers is still the last one exactly
        // when the final modifier is not a keyword.
        assert forall|kw: Seq<char>| access_keyword(kw) implies (last_access_keyword_is(t, cs, kw) <==> (k == kw || (
        !access_keyword(k) && last_access_keyword_is(t, d, kw)))) by {
            if last_access_keyword_is(t, cs, kw) {
                let i = choose|i: int| 0 <= i < cs.len() && #[trigger] t.kind(cs[i] as int) == kw && forall|j: int|
                    i < j < cs.len() ==> !access_keyword(#[trigger] t.kind(cs[j] as int));
                if i < n {
                    assert(!access_keyword(t.kind(cs[n] as int)));
                    assert(d[i] == cs[i]);
                    assert forall|j: int| i < j < d.len() implies !access_keyword(#[trigger] t.kind(d[j] as int)) by {
                        assert(d[j] == cs[j]);
                    }
                }
            }
            if k == kw {
                assert(t.kind(cs[n] as int) == kw);
            } else if !access_keyword(k) && last_access_keyword_is(t, d, kw) {
                let i = choose|i: int| 0 <= i < d.len() && #[trigger] t.kind(d[i] as int) == kw && forall|j: int|
                    i < j < d.len() ==> !access_keyword(#[trigger] t.kind(d[j] as int));
                assert(cs[i] == d[i]);
                assert forall|j: int| i < j < cs.len() implies !access_keyword(#[trigger] t.kind(cs[j] as int)) by {
                    if j < n {
                        assert(d[j] == cs[j]);
                    }
                }
            }
        }
        assert(access_keyword("public"@) && access_keyword("private"@) && access_keyword("protected"@));
        if !access_keyword(k) {
            assert((forall|j: int| 0 <= j < cs.len() ==> !access_keyword(#[trigger] t.kind(cs[j] as int))) <==> (
            forall|j: int| 0 <= j < d.len() ==> !access_keyword(#[trigger] t.kind(d[j] as int)))) by {
                if forall|j: int| 0 <= j < d.len() ==> !access_keyword(#[trigger] t.kind(d[j] as int)) {
                    assert forall|j: int| 0 <= j < cs.len() implies !access_keyword(#[trigger] t.kind(cs[j] as int)) by {
                        if j < n {
                            assert(d[j] == cs[j]);
                        }
                    }
                }
                if forall|j: int| 0 <= j < cs.len() ==> !access_keyword(#[trigger] t.kind(cs[j] as int)) {
                    assert forall|j: int| 0 <= j < d.len() implies !access_keyword(#[trigger] t.kind(d[j] as int)) by {
                        assert(d[j] == cs[j]);
                    }
                }
            }
        } else {
            assert(!access_keyword(t.kind(cs[n] as int)) == false);
        }
    } else {
        assert(!last_access_keyword_is(t, cs, "public"@));
        assert(!last_access_keyword_is(t, cs, "private"@));
    }
}

} // verus!
