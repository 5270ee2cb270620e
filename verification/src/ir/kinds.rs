//! Classification of language-native kind strings.
//!
//! Symbols carry the language's own vocabulary (`fn`, `func`, `function`,
//! `class`, `struct`, ...). Formatters and commands that treat kinds by
//! category (e.g. "is this callable?") use these helpers.

use vstd::prelude::*;

use crate::text::str_eq;

verus! {

/// Free-standing function kinds across languages (Rust `fn`, Go `func`,
/// TypeScript `function`).
pub open spec fn is_function_kind_spec(k: Seq<char>) -> bool {
    k == "fn"@ || k == "func"@ || k == "function"@
}

/// Free functions and methods.
pub open spec fn is_callable_kind_spec(k: Seq<char>) -> bool {
    is_function_kind_spec(k) || k == "method"@
}

/// Position of a kind in the list of type-defining kinds
/// `struct, class, record, enum, trait, interface, annotation, type`.
pub open spec fn type_kind_index(k: Seq<char>) -> Option<u8> {
    if k == "struct"@ {
        Some(0)
    } else if k == "class"@ {
        Some(1)
    } else if k == "record"@ {
        Some(2)
    } else if k == "enum"@ {
        Some(3)
    } else if k == "trait"@ {
        Some(4)
    } else if k == "interface"@ {
        Some(5)
    } else if k == "annotation"@ {
        Some(6)
    } else if k == "type"@ {
        Some(7)
    } else {
        None
    }
}

pub open spec fn is_type_kind_spec(k: Seq<char>) -> bool {
    type_kind_index(k) is Some
}

pub open spec fn has_data_fields_spec(k: Seq<char>) -> bool {
    k == "struct"@ || k == "class"@ || k == "record"@
}

/// Display rank: types first (in list order), then consts, modules,
/// functions, methods, impls, then everything else.
pub open spec fn kind_rank_spec(k: Seq<char>) -> u8 {
    match type_kind_index(k) {
        Some(i) => i,
        None => if k == "const"@ {
            20
        } else if k == "mod"@ || k == "namespace"@ {
            21
        } else if is_function_kind_spec(k) {
            30
        } else if k == "method"@ {
            31
        } else if k == "impl"@ {
            32
        } else {
            40
        },
    }
}

/// A free-standing function (not a method).
pub fn is_function_kind(kind: &str) -> (r: bool)
    ensures
        r == is_function_kind_spec(kind@),
{
    str_eq(kind, "fn") || str_eq(kind, "func") || str_eq(kind, "function")
}

/// Anything with params/return type: free functions and methods.
pub fn is_callable_kind(kind: &str) -> (r: bool)
    ensures
        r == is_callable_kind_spec(kind@),
{
    is_function_kind(kind) || str_eq(kind, "method")
}

fn type_kind_position(kind: &str) -> (r: Option<u8>)
    ensures
        r == type_kind_index(kind@),
{
    if str_eq(kind, "struct") {
        Some(0)
    } else if str_eq(kind, "class") {
        Some(1)
    } else if str_eq(kind, "record") {
        Some(2)
    } else if str_eq(kind, "enum") {
        Some(3)
    } else if str_eq(kind, "trait") {
        Some(4)
    } else if str_eq(kind, "interface") {
        Some(5)
    } else if str_eq(kind, "annotation") {
        Some(6)
    } else if str_eq(kind, "type") {
        Some(7)
    } else {
        None
    }
}

/// A type definition (struct, class, interface, enum, type alias, ...).
pub fn is_type_kind(kind: &str) -> (r: bool)
    ensures
        r == is_type_kind_spec(kind@),
{
    type_kind_position(kind).is_some()
}

/// Kinds whose `fields` represent data members worth listing inline.
pub fn has_data_fields(kind: &str) -> (r: bool)
    ensures
        r == has_data_fields_spec(kind@),
{
    str_eq(kind, "struct") || str_eq(kind, "class") || str_eq(kind, "record")
}

/// Stable display ordering for kinds: types first, then consts/modules, then
/// functions, then everything else.
pub fn kind_rank(kind: &str) -> (r: u8)
    ensures
        r == kind_rank_spec(kind@),
{
    match type_kind_position(kind) {
        Some(i) => i,
        None => if str_eq(kind, "const") {
            20
        } else if str_eq(kind, "mod") || str_eq(kind, "namespace") {
            21
        } else if is_function_kind(kind) {
            30
        } else if str_eq(kind, "method") {
            31
        } else if str_eq(kind, "impl") {
            32
        } else {
            40
        },
    }
}

/// Every type kind ranks before every non-type kind, and functions rank
/// before anything that is not a type, const, module or function.
pub proof fn lemma_types_rank_first(t: Seq<char>, k: Seq<char>)
    requires
        is_type_kind_spec(t),
        !is_type_kind_spec(k),
    ensures
        kind_rank_spec(t) < kind_rank_spec(k),
{
}

/// The display order of kinds: the type kinds in list order (struct, class,
/// record, enum, trait, interface, annotation, type), then const, then
/// mod and namespace together, then fn, func and function together, then
/// method, then impl, then every other kind.
pub proof fn lemma_kind_rank_order(other: Seq<char>)
    requires
        !is_type_kind_spec(other),
        other != "const"@,
        other != "mod"@,
        other != "namespace"@,
        !is_function_kind_spec(other),
        other != "method"@,
        other != "impl"@,
    ensures
        kind_rank_spec("struct"@) < kind_rank_spec("class"@),
        kind_rank_spec("class"@) < kind_rank_spec("record"@),
        kind_rank_spec("record"@) < kind_rank_spec("enum"@),
        kind_rank_spec("enum"@) < kind_rank_spec("trait"@),
        kind_rank_spec("trait"@) < kind_rank_spec("interface"@),
        kind_rank_spec("interface"@) < kind_rank_spec("annotation"@),
        kind_rank_spec("annotation"@) < kind_rank_spec("type"@),
        kind_rank_spec("type"@) < kind_rank_spec("const"@),
        kind_rank_spec("const"@) < kind_rank_spec("mod"@),
        kind_rank_spec("mod"@) == kind_rank_spec("namespace"@),
        kind_rank_spec("namespace"@) < kind_rank_spec("fn"@),
        kind_rank_spec("fn"@) == kind_rank_spec("func"@),
        kind_rank_spec("func"@) == kind_rank_spec("function"@),
        kind_rank_spec("function"@) < kind_rank_spec("method"@),
        kind_rank_spec("method"@) < kind_rank_spec("impl"@),
        kind_rank_spec("impl"@) < kind_rank_spec(other),
{
    reveal_strlit("struct");
    reveal_strlit("class");
    reveal_strlit("record");
    reveal_strlit("enum");
    reveal_strlit("trait");
    reveal_strlit("interface");
    reveal_strlit("annotation");
    reveal_strlit("type");
    reveal_strlit("const");
    reveal_strlit("mod");
    reveal_strlit("namespace");
    reveal_strlit("fn");
    reveal_strlit("func");
    reveal_strlit("function");
    reveal_strlit("method");
    reveal_strlit("impl");
    assert("struct"@[0] != "class"@[0]);
    assert("struct"@[0] != "record"@[0]);
    assert("struct"@[0] != "enum"@[0]);
    assert("struct"@[0] != "trait"@[0]);
    assert("struct"@[0] != "interface"@[0]);
    assert("struct"@[0] != "annotation"@[0]);
    assert("struct"@[0] != "type"@[0]);
    assert("struct"@[0] != "const"@[0]);
    assert("struct"@[0] != "mod"@[0]);
    assert("struct"@[0] != "namespace"@[0]);
    assert("struct"@[0] != "fn"@[0]);
    assert("struct"@[0] != "func"@[0]);
    assert("struct"@[0] != "function"@[0]);
    assert("struct"@[0] != "method"@[0]);
    assert("struct"@[0] != "impl"@[0]);
    assert("class"@[0] != "record"@[0]);
    assert("class"@[0] != "enum"@[0]);
    assert("class"@[0] != "trait"@[0]);
    assert("class"@[0] != "interface"@[0]);
    assert("class"@[0] != "annotation"@[0]);
    assert("class"@[0] != "type"@[0]);
    assert("class"@[1] != "const"@[1]);
    assert("class"@[0] != "mod"@[0]);
    assert("class"@[0] != "namespace"@[0]);
    assert("class"@[0] != "fn"@[0]);
    assert("class"@[0] != "func"@[0]);
    assert("class"@[0] != "function"@[0]);
    assert("class"@[0] != "method"@[0]);
    assert("class"@[0] != "impl"@[0]);
    assert("record"@[0] != "enum"@[0]);
    assert("record"@[0] != "trait"@[0]);
    assert("record"@[0] != "interface"@[0]);
    assert("record"@[0] != "annotation"@[0]);
    assert("record"@[0] != "type"@[0]);
    assert("record"@[0] != "const"@[0]);
    assert("record"@[0] != "mod"@[0]);
    assert("record"@[0] != "namespace"@[0]);
    assert("record"@[0] != "fn"@[0]);
    assert("record"@[0] != "func"@[0]);
    assert("record"@[0] != "function"@[0]);
    assert("record"@[0] != "method"@[0]);
    assert("record"@[0] != "impl"@[0]);
    assert("enum"@[0] != "trait"@[0]);
    assert("enum"@[0] != "interface"@[0]);
    assert("enum"@[0] != "annotation"@[0]);
    assert("enum"@[0] != "type"@[0]);
    assert("enum"@[0] != "const"@[0]);
    assert("enum"@[0] != "mod"@[0]);
    assert("enum"@[0] != "namespace"@[0]);
    assert("enum"@[0] != "fn"@[0]);
    assert("enum"@[0] != "func"@[0]);
    assert("enum"@[0] != "function"@[0]);
    assert("enum"@[0] != "method"@[0]);
    assert("enum"@[0] != "impl"@[0]);
    assert("trait"@[0] != "interface"@[0]);
    assert("trait"@[0] != "annotation"@[0]);
    assert("trait"@[1] != "type"@[1]);
    assert("trait"@[0] != "const"@[0]);
    assert("trait"@[0] != "mod"@[0]);
    assert("trait"@[0] != "namespace"@[0]);
    assert("trait"@[0] != "fn"@[0]);
    assert("trait"@[0] != "func"@[0]);
    assert("trait"@[0] != "function"@[0]);
    assert("trait"@[0] != "method"@[0]);
    assert("trait"@[0] != "impl"@[0]);
    assert("interface"@[0] != "annotation"@[0]);
    assert("interface"@[0] != "type"@[0]);
    assert("interface"@[0] != "const"@[0]);
    assert("interface"@[0] != "mod"@[0]);
    assert("interface"@[0] != "namespace"@[0]);
    assert("interface"@[0] != "fn"@[0]);
    assert("interface"@[0] != "func"@[0]);
    assert("interface"@[0] != "function"@[0]);
    assert("interface"@[0] != "method"@[0]);
    assert("interface"@[1] != "impl"@[1]);
    assert("annotation"@[0] != "type"@[0]);
    assert("annotation"@[0] != "const"@[0]);
    assert("annotation"@[0] != "mod"@[0]);
    assert("annotation"@[0] != "namespace"@[0]);
    assert("annotation"@[0] != "fn"@[0]);
    assert("annotation"@[0] != "func"@[0]);
    assert("annotation"@[0] != "function"@[0]);
    assert("annotation"@[0] != "method"@[0]);
    assert("annotation"@[0] != "impl"@[0]);
    assert("type"@[0] != "const"@[0]);
    assert("type"@[0] != "mod"@[0]);
    assert("type"@[0] != "namespace"@[0]);
    assert("type"@[0] != "fn"@[0]);
    assert("type"@[0] != "func"@[0]);
    assert("type"@[0] != "function"@[0]);
    assert("type"@[0] != "method"@[0]);
    assert("type"@[0] != "impl"@[0]);
    assert("const"@[0] != "mod"@[0]);
    assert("const"@[0] != "namespace"@[0]);
    assert("const"@[0] != "fn"@[0]);
    assert("const"@[0] != "func"@[0]);
    assert("const"@[0] != "function"@[0]);
    assert("const"@[0] != "method"@[0]);
    assert("const"@[0] != "impl"@[0]);
    assert("mod"@[0] != "namespace"@[0]);
    assert("mod"@[0] != "fn"@[0]);
    assert("mod"@[0] != "func"@[0]);
    assert("mod"@[0] != "function"@[0]);
    assert("mod"@[1] != "method"@[1]);
    assert("mod"@[0] != "impl"@[0]);
    assert("namespace"@[0] != "fn"@[0]);
    assert("namespace"@[0] != "func"@[0]);
    assert("namespace"@[0] != "function"@[0]);
    assert("namespace"@[0] != "method"@[0]);
    assert("namespace"@[0] != "impl"@[0]);
    assert("fn"@[1] != "func"@[1]);
    assert("fn"@[1] != "function"@[1]);
    assert("fn"@[0] != "method"@[0]);
    assert("fn"@[0] != "impl"@[0]);
    assert("func"@.len() != "function"@.len());
    assert("func"@[0] != "method"@[0]);
    assert("func"@[0] != "impl"@[0]);
    assert("function"@[0] != "method"@[0]);
    assert("function"@[0] != "impl"@[0]);
    assert("method"@[0] != "impl"@[0]);
}

} // verus!

verus! {

/// The callable kinds are exactly `fn`, `func`, `function` and `method`;
/// the type kinds exactly `struct`, `class`, `record`, `enum`, `trait`,
/// `interface`, `annotation` and `type`; no kind is both.
#[verifier::spinoff_prover]
pub proof fn lemma_kind_families(k: Seq<char>)
    ensures
        is_callable_kind_spec(k) <==> (k == "fn"@ || k == "func"@ || k == "function"@ || k == "method"@),
        is_type_kind_spec(k) <==> (k == "struct"@ || k == "class"@ || k == "record"@ || k == "enum"@ || k == "trait"@
            || k == "interface"@ || k == "annotation"@ || k == "type"@),
        !(is_callable_kind_spec(k) && is_type_kind_spec(k)),
{
    reveal_strlit("fn");
    reveal_strlit("func");
    reveal_strlit("function");
    reveal_strlit("method");
    reveal_strlit("struct");
    reveal_strlit("class");
    reveal_strlit("record");
    reveal_strlit("enum");
    reveal_strlit("trait");
    reveal_strlit("interface");
    reveal_strlit("annotation");
    reveal_strlit("type");
    if is_callable_kind_spec(k) {
        assert(k.len() == 2 || k.len() == 4 || k.len() == 8 || k.len() == 6);
        if k.len() == 4 {
            assert(k == "func"@);
            assert(k[0] != "type"@[0] && k[0] != "enum"@[0]);
        }
        if k.len() == 6 {
            assert(k == "method"@);
            assert(k[0] != "struct"@[0] && k[0] != "record"@[0]);
        }
        if k.len() == 8 {
            assert(k == "function"@);
        }
    }
}

} // verus!
