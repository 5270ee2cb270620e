//! TypeScript conventions: the dotted module prefix derived from a file's
//! directory.

use vstd::prelude::*;

use crate::ir::types::{DepKind, Dependency, Field, Ir, Param, Symbol, Visibility};
use crate::parser::java::dots_for_slashes;
use crate::parser::common::{fields_view, params_view};
use crate::parser::rust::field_text;
use crate::parser::tree::{
    child_by_field_name, child_in_field, child_of_kind, find_child_by_kind, is_loc_of, kind_is,
    lemma_children_after, loc_of, node_text, texts_of_kind, SyntaxTree,
};
use crate::paths::rfind_char_exec;
use crate::split::{first_index, first_index_exec, trim_end_matches, trim_matches, trim_matches_spec};
use crate::text::{
    chars_of, concat, ends_with, owned, push_str, replace_char, rfind_char, starts_with,
    str_ends_with, str_eq, str_starts_with, string_of, strip_prefix, strip_prefix_str, strip_suffix,
    strip_suffix_str, trim, trim_end_char, trim_str, views,
};

verus! {

/// The dotted directory of the path with `src/` and the `.ts`/`.tsx`
/// extension removed; empty for a file at the root.
pub open spec fn ts_module_prefix_spec(p: Seq<char>) -> Seq<char> {
    let stripped = strip_prefix(p, "src/"@);
    let w = if ends_with(stripped, ".tsx"@) {
        strip_suffix(stripped, ".tsx"@)
    } else {
        strip_suffix(stripped, ".ts"@)
    };
    match rfind_char(w, '/') {
        Some(i) => replace_char(w.take(i), '/', '.'),
        None => seq![],
    }
}

/// Derive a module prefix from the file path.
/// `src/services/user.ts` → `services`; `src/index.ts` → ``.
pub fn module_prefix_from_path(path: &str) -> (r: String)
    ensures
        r@ == ts_module_prefix_spec(path@),
{
    let stripped = strip_prefix_str(path, "src/");
    let w = if str_ends_with(stripped.as_str(), ".tsx") {
        strip_suffix_str(stripped.as_str(), ".tsx")
    } else {
        strip_suffix_str(stripped.as_str(), ".ts")
    };
    let v = chars_of(w.as_str());
    match rfind_char_exec(&v, '/') {
        Some(i) => {
            let dir = string_of(&v, 0, i);
            assert(dir@ =~= w@.take(i as int));
            dots_for_slashes(dir.as_str())
        },
        None => String::new(),
    }
}

// ---------------------------------------------------------------------------
// What every extracted symbol and dependency satisfies
// ---------------------------------------------------------------------------

/// The symbol kinds the TypeScript parser emits.
pub open spec fn is_ts_kind(k: Seq<char>) -> bool {
    ||| k == "function"@
    ||| k == "const"@
    ||| k == "class"@
    ||| k == "interface"@
    ||| k == "enum"@
    ||| k == "type"@
    ||| k == "namespace"@
    ||| k == "method"@
}

/// A symbol of the module `pkg` in the file `path`.
pub open spec fn ts_symbol_ok(s: Symbol, pkg: Seq<char>, path: Seq<char>) -> bool {
    &&& s.loc.file@ == path
    &&& is_ts_kind(s.kind@)
    &&& starts_with(s.qualified_name@, pkg)
}

/// An import or supertype of the module `pkg` in the file `path`.
pub open spec fn ts_dep_ok(d: Dependency, pkg: Seq<char>, path: Seq<char>) -> bool {
    &&& d.loc.file@ == path
    &&& (d.kind == DepKind::Import || d.kind == DepKind::Implements)
    &&& (d.from_qualified@ == "(file)"@ || starts_with(d.from_qualified@, pkg))
}

/// Every symbol and dependency of `ir` is valid for the file.
pub open spec fn ts_ir_ok(ir: Ir, pkg: Seq<char>, path: Seq<char>) -> bool {
    &&& forall|i: int| 0 <= i < ir.symbols@.len() ==> ts_symbol_ok(#[trigger] ir.symbols@[i], pkg, path)
    &&& forall|i: int| 0 <= i < ir.dependencies@.len() ==> ts_dep_ok(#[trigger] ir.dependencies@[i], pkg, path)
}

pub proof fn lemma_dot_extends(base: Seq<char>, name: Seq<char>, pkg: Seq<char>)
    requires
        starts_with(base, pkg),
    ensures
        starts_with(base + "."@ + name, pkg),
        starts_with(crate::parser::go::qualified_spec(base, name), pkg),
{
    assert((base + "."@ + name).subrange(0, pkg.len() as int) =~= base.subrange(0, pkg.len() as int));
    let q = crate::parser::go::qualified_spec(base, name);
    if base.len() == 0 {
        assert(pkg.len() == 0);
        assert(q.subrange(0, 0) =~= pkg);
    } else {
        assert(q.subrange(0, pkg.len() as int) =~= base.subrange(0, pkg.len() as int));
    }
}

fn push_ts_symbol(ir: &mut Ir, s: Symbol, Ghost(pkg): Ghost<Seq<char>>, Ghost(path): Ghost<Seq<char>>)
    requires
        ts_ir_ok(*old(ir), pkg, path),
        ts_symbol_ok(s, pkg, path),
    ensures
        ts_ir_ok(*final(ir), pkg, path),
        final(ir).symbols@.len() == old(ir).symbols@.len() + 1,
        final(ir).symbols@ == old(ir).symbols@.push(s),
        final(ir).dependencies@ == old(ir).dependencies@,
{
    ir.symbols.push(s);
    assert forall|i: int| 0 <= i < ir.symbols@.len() implies ts_symbol_ok(#[trigger] ir.symbols@[i], pkg, path) by {
        if i < old(ir).symbols@.len() {
            assert(ir.symbols@[i] == old(ir).symbols@[i]);
        }
    }
}

fn push_ts_dep(ir: &mut Ir, d: Dependency, Ghost(pkg): Ghost<Seq<char>>, Ghost(path): Ghost<Seq<char>>)
    requires
        ts_ir_ok(*old(ir), pkg, path),
        ts_dep_ok(d, pkg, path),
    ensures
        ts_ir_ok(*final(ir), pkg, path),
        final(ir).symbols@ == old(ir).symbols@,
        final(ir).dependencies@ == old(ir).dependencies@.push(d),
{
    ir.dependencies.push(d);
    assert forall|i: int| 0 <= i < ir.dependencies@.len() implies ts_dep_ok(#[trigger] ir.dependencies@[i], pkg, path) by {
        if i < old(ir).dependencies@.len() {
            assert(ir.dependencies@[i] == old(ir).dependencies@[i]);
        }
    }
}

// ---------------------------------------------------------------------------
// What a file yields, declaration by declaration
// ---------------------------------------------------------------------------

/// The declaration a symbol comes from; each carries the prefix it is
/// qualified under.
pub enum TsSymSrc {
    /// A function declaration `n` with its attributes.
    Func(int, Seq<char>, bool, Option<Seq<char>>, Seq<Seq<char>>),
    /// A variable declarator `c` whose value `v` is an arrow function.
    Arrow(int, int, Seq<char>, bool, Option<Seq<char>>),
    /// A variable declarator `c` of another value.
    Const(int, Seq<char>, bool, Option<Seq<char>>),
    /// A class method `c` of the class (name, qualified name) with its
    /// attributes.
    Method(int, Seq<char>, Seq<char>, Seq<Seq<char>>),
    /// An interface method signature `c` of the interface (name, qualified name).
    MethodSig(int, Seq<char>, Seq<char>),
    /// A class declaration `n` with its attributes.
    Class(int, Seq<char>, bool, Seq<Seq<char>>),
    /// An interface declaration `n`.
    Interface(int, Seq<char>, bool),
    /// An enum declaration `n`.
    Enum(int, Seq<char>, bool),
    /// A type alias declaration `n`.
    Alias(int, Seq<char>, bool),
    /// A namespace declaration `n`.
    Namespace(int, Seq<char>, bool),
}

/// What a dependency comes from.
pub enum TsDepSrc {
    /// The import statement `n` of the module with the prefix.
    Import(int, Seq<char>),
    /// A supertype named by the second field at node `at`, of the type
    /// qualified by the first field.
    Super(Seq<char>, Seq<char>, int),
}

/// What a walk yields: symbol sources and dependency sources, in order.
#[verifier::ext_equal]
pub struct TsOut {
    pub syms: Seq<TsSymSrc>,
    pub deps: Seq<TsDepSrc>,
}

pub open spec fn ts_out_none() -> TsOut {
    TsOut { syms: seq![], deps: seq![] }
}

pub open spec fn ts_out_cat(a: TsOut, b: TsOut) -> TsOut {
    TsOut { syms: a.syms + b.syms, deps: a.deps + b.deps }
}

pub open spec fn ts_syms(s: Seq<TsSymSrc>) -> TsOut {
    TsOut { syms: s, deps: seq![] }
}

pub open spec fn ts_deps(d: Seq<TsDepSrc>) -> TsOut {
    TsOut { syms: seq![], deps: d }
}

/// What a variable declarator `c` with an arrow function `v` yields.
pub open spec fn arrow_signature(t: SyntaxTree, c: int, v: int) -> Seq<char> {
    "const "@ + field_text(t, c, "name"@)->0 + " = "@ + ts_params_and_return(t, v) + " => ..."@
}

/// The attributes of a class: the outer decorators, its own, then
/// `abstract` for an abstract class.
pub open spec fn class_attrs(t: SyntaxTree, n: int, outer: Seq<Seq<char>>) -> Seq<Seq<char>> {
    let a = outer + texts_of_kind(t, t.children(n), "decorator"@);
    if t.kind(n) == "abstract_class_declaration"@ {
        a.push("abstract"@)
    } else {
        a
    }
}

/// What the entries `cs` of a class body of (`pname`, `pqn`) yield: methods
/// and fields, and the decorators still pending after them.
pub open spec fn class_body_in(t: SyntaxTree, cs: Seq<usize>, pname: Seq<char>, pqn: Seq<char>) -> (
    Seq<TsSymSrc>,
    Seq<(Seq<char>, Seq<char>, Visibility)>,
    Seq<Seq<char>>,
)
    decreases cs.len(),
{
    if cs.len() == 0 {
        (seq![], seq![], seq![])
    } else {
        let (ms, fs, p) = class_body_in(t, cs.drop_last(), pname, pqn);
        let c = cs.last() as int;
        let k = t.kind(c);
        if k == "decorator"@ {
            (ms, fs, p.push(t.text(c)))
        } else if k == "method_definition"@ || k == "abstract_method_signature"@ {
            if ts_member_name(t, c) is Some {
                let a = method_attrs(t, c);
                let a2 = if k == "abstract_method_signature"@ {
                    a.push("abstract"@)
                } else {
                    a
                };
                (ms.push(TsSymSrc::Method(c, pname, pqn, a2 + p)), fs, seq![])
            } else {
                (ms, fs, seq![])
            }
        } else if k == "public_field_definition"@ {
            match ts_member_name(t, c) {
                Some(nm) => (
                    ms,
                    fs.push(
                        (
                            nm,
                            match ts_annotation(t, c, "type"@) {
                                Some(x) => x,
                                None => seq![],
                            },
                            ts_member_vis(t, c),
                        ),
                    ),
                    seq![],
                ),
                None => (ms, fs, seq![]),
            }
        } else {
            (ms, fs, p)
        }
    }
}

/// The methods and fields of the class `n` named `pname`, qualified `pqn`.
pub open spec fn class_members(t: SyntaxTree, n: int, pname: Seq<char>, pqn: Seq<char>) -> (
    Seq<TsSymSrc>,
    Seq<(Seq<char>, Seq<char>, Visibility)>,
) {
    match child_of_kind(t, n, "class_body"@) {
        Some(b) => {
            let r = class_body_in(t, t.children(b as int), pname, pqn);
            (r.0, r.1)
        },
        None => (seq![], seq![]),
    }
}

/// The body of the interface `n`.
pub open spec fn interface_body(t: SyntaxTree, n: int) -> Option<usize> {
    match child_of_kind(t, n, "interface_body"@) {
        Some(b) => Some(b),
        None => child_of_kind(t, n, "object_type"@),
    }
}

/// What the entries `cs` of an interface body of (`pname`, `pqn`) yield:
/// method signatures and property fields.
pub open spec fn interface_body_in(t: SyntaxTree, cs: Seq<usize>, pname: Seq<char>, pqn: Seq<char>) -> (
    Seq<TsSymSrc>,
    Seq<(Seq<char>, Seq<char>, Visibility)>,
)
    decreases cs.len(),
{
    if cs.len() == 0 {
        (seq![], seq![])
    } else {
        let (ms, fs) = interface_body_in(t, cs.drop_last(), pname, pqn);
        let c = cs.last() as int;
        if t.kind(c) == "method_signature"@ {
            if ts_member_name(t, c) is Some {
                (ms.push(TsSymSrc::MethodSig(c, pname, pqn)), fs)
            } else {
                (ms, fs)
            }
        } else if t.kind(c) == "property_signature"@ {
            match ts_member_name(t, c) {
                Some(nm) => (
                    ms,
                    fs.push(
                        (
                            nm,
                            match ts_annotation(t, c, "type"@) {
                                Some(x) => x,
                                None => seq![],
                            },
                            Visibility::Public,
                        ),
                    ),
                ),
                None => (ms, fs),
            }
        } else {
            (ms, fs)
        }
    }
}

/// The members of the interface `n`.
pub open spec fn interface_members(t: SyntaxTree, n: int, pname: Seq<char>, pqn: Seq<char>) -> (
    Seq<TsSymSrc>,
    Seq<(Seq<char>, Seq<char>, Visibility)>,
) {
    match interface_body(t, n) {
        Some(b) => interface_body_in(t, t.children(b as int), pname, pqn),
        None => (seq![], seq![]),
    }
}

/// Is `s` the symbol that `src` yields?
pub open spec fn ts_sym_from(s: Symbol, src: TsSymSrc, t: SyntaxTree, path: Seq<char>) -> bool {
    match src {
        TsSymSrc::Func(n, prefix, exported, parent, attrs) => is_ts_function_symbol(
            s,
            t,
            n,
            path,
            prefix,
            exported,
            parent,
            attrs,
        ),
        TsSymSrc::Arrow(c, v, prefix, exported, parent) => {
            &&& field_text(t, c, "name"@) == Some(s.name@)
            &&& s.qualified_name@ == ts_member_qualified(prefix, parent, s.name@)
            &&& s.kind@ == "function"@
            &&& is_loc_of(s.loc, t, c, path)
            &&& s.visibility == (if exported { Visibility::Public } else { Visibility::Private })
            &&& opt_seq(s.parent) == parent
            &&& s.fields@.len() == 0
            &&& params_view(s.params@) == ts_params_spec(t, v)
            &&& opt_seq(s.return_type) == ts_annotation(t, v, "return_type"@)
            &&& opt_seq(s.signature) == Some(arrow_signature(t, c, v))
            &&& s.attributes@.len() == 0
        },
        TsSymSrc::Const(c, prefix, exported, parent) => {
            &&& field_text(t, c, "name"@) == Some(s.name@)
            &&& s.qualified_name@ == crate::parser::go::qualified_spec(prefix, s.name@)
            &&& s.kind@ == "const"@
            &&& is_loc_of(s.loc, t, c, path)
            &&& s.visibility == (if exported { Visibility::Public } else { Visibility::Private })
            &&& opt_seq(s.parent) == parent
            &&& s.fields@.len() == 0
            &&& s.params@.len() == 0
            &&& s.return_type is None
            &&& s.signature is None
            &&& s.attributes@.len() == 0
        },
        TsSymSrc::Method(c, pname, pqn, attrs) => is_ts_method_symbol(
            s,
            t,
            c,
            path,
            pname,
            pqn,
            ts_member_vis(t, c),
            s.name@ + ts_params_and_return(t, c),
            attrs,
        ),
        TsSymSrc::MethodSig(c, pname, pqn) => is_ts_method_symbol(
            s,
            t,
            c,
            path,
            pname,
            pqn,
            Visibility::Public,
            method_sig_text(t, c),
            seq![],
        ),
        TsSymSrc::Class(n, prefix, exported, attrs) => field_text(t, n, "name"@) == Some(s.name@) && is_ts_decl_symbol(
            s,
            t,
            n,
            path,
            prefix,
            exported,
            "class"@,
            None,
            class_members(t, n, s.name@, crate::parser::go::qualified_spec(prefix, s.name@)).1,
            attrs,
        ),
        TsSymSrc::Interface(n, prefix, exported) => field_text(t, n, "name"@) == Some(s.name@) && is_ts_decl_symbol(
            s,
            t,
            n,
            path,
            prefix,
            exported,
            "interface"@,
            None,
            interface_members(t, n, s.name@, crate::parser::go::qualified_spec(prefix, s.name@)).1,
            seq![],
        ),
        TsSymSrc::Enum(n, prefix, exported) => field_text(t, n, "name"@) == Some(s.name@) && is_ts_decl_symbol(
            s,
            t,
            n,
            path,
            prefix,
            exported,
            "enum"@,
            None,
            enum_fields(t, n),
            enum_attrs(t, n),
        ),
        TsSymSrc::Alias(n, prefix, exported) => field_text(t, n, "name"@) == Some(s.name@) && is_ts_decl_symbol(
            s,
            t,
            n,
            path,
            prefix,
            exported,
            "type"@,
            Some(first_line_spec(t.text(n))),
            seq![],
            seq![],
        ),
        TsSymSrc::Namespace(n, prefix, exported) => ns_name(t, n) == Some(s.name@) && is_ts_decl_symbol(
            s,
            t,
            n,
            path,
            prefix,
            exported,
            "namespace"@,
            None,
            seq![],
            seq![],
        ),
    }
}

/// The name of a namespace: its `name` field, else its identifier child.
pub open spec fn ns_name(t: SyntaxTree, n: int) -> Option<Seq<char>> {
    match field_text(t, n, "name"@) {
        Some(x) => Some(x),
        None => match child_of_kind(t, n, "identifier"@) {
            Some(c) => Some(t.text(c as int)),
            None => None,
        },
    }
}

/// Is `d` the dependency that `src` yields?
pub open spec fn ts_dep_from(d: Dependency, src: TsDepSrc, t: SyntaxTree, path: Seq<char>) -> bool {
    match src {
        TsDepSrc::Import(n, prefix) => {
            &&& ts_import_module(t, n) == Some(d.to_name@)
            &&& d.from_qualified@ == ts_import_from(prefix)
            &&& d.kind == DepKind::Import
            &&& is_loc_of(d.loc, t, n, path)
        },
        TsDepSrc::Super(from, name, at) => {
            &&& d.from_qualified@ == from
            &&& d.to_name@ == name
            &&& d.kind == DepKind::Implements
            &&& is_loc_of(d.loc, t, at, path)
        },
    }
}

/// The supertypes the entries `cs` of a heritage clause name, each with
/// the node that locates it.
pub open spec fn clause_refs(t: SyntaxTree, cs: Seq<usize>) -> Seq<(Seq<char>, int)>
    decreases cs.len(),
{
    if cs.len() == 0 {
        seq![]
    } else {
        let c = cs.last() as int;
        clause_refs(t, cs.drop_last()) + if t.kind(c) == "identifier"@ || t.kind(c) == "type_identifier"@ {
            if t.text(c) != "extends"@ && t.text(c) != "implements"@ {
                seq![(t.text(c), c)]
            } else {
                seq![]
            }
        } else if t.kind(c) == "generic_type"@ && t.children(c).len() > 0 {
            seq![(t.text(t.children(c)[0] as int), c)]
        } else {
            seq![]
        }
    }
}

/// The `Super` dependencies of `from` for the references `rs`.
pub open spec fn super_srcs(from: Seq<char>, rs: Seq<(Seq<char>, int)>) -> Seq<TsDepSrc> {
    Seq::new(rs.len(), |i: int| TsDepSrc::Super(from, rs[i].0, rs[i].1))
}

pub open spec fn is_heritage_kind(k: Seq<char>) -> bool {
    k == "extends_clause"@ || k == "extends_type_clause"@ || k == "implements_clause"@
}

/// The candidate heritage clauses among the entries `cs` of a type
/// declaration: the children of a `class_heritage`, and clauses themselves.
pub open spec fn heritage_candidates(t: SyntaxTree, cs: Seq<usize>) -> Seq<usize>
    decreases cs.len(),
{
    if cs.len() == 0 {
        seq![]
    } else {
        let c = cs.last() as int;
        heritage_candidates(t, cs.drop_last()) + if t.kind(c) == "class_heritage"@ {
            t.children(c)
        } else if is_heritage_kind(t.kind(c)) {
            seq![c as usize]
        } else {
            seq![]
        }
    }
}

/// The supertypes the heritage clauses among `hs` name, in order.
pub open spec fn heritage_refs(t: SyntaxTree, hs: Seq<usize>) -> Seq<(Seq<char>, int)>
    decreases hs.len(),
{
    if hs.len() == 0 {
        seq![]
    } else {
        let h = hs.last() as int;
        heritage_refs(t, hs.drop_last()) + if is_heritage_kind(t.kind(h)) {
            clause_refs(t, t.children(h))
        } else {
            seq![]
        }
    }
}

/// The supertype dependencies of the type declaration `n` qualified `qn`.
pub open spec fn heritage_deps(t: SyntaxTree, n: int, qn: Seq<char>) -> Seq<TsDepSrc> {
    super_srcs(qn, heritage_refs(t, heritage_candidates(t, t.children(n))))
}

/// What the variable declarators among `cs` yield.
pub open spec fn lexical_in(t: SyntaxTree, cs: Seq<usize>, prefix: Seq<char>, exported: bool, parent: Option<Seq<char>>) -> Seq<
    TsSymSrc,
>
    decreases cs.len(),
{
    if cs.len() == 0 {
        seq![]
    } else {
        let c = cs.last() as int;
        lexical_in(t, cs.drop_last(), prefix, exported, parent) + if t.kind(c) == "variable_declarator"@ && field_text(
            t,
            c,
            "name"@,
        ) is Some {
            match child_in_field(t, c, "value"@) {
                Some(v) => if t.kind(v as int) == "arrow_function"@ {
                    seq![TsSymSrc::Arrow(c, v as int, prefix, exported, parent)]
                } else {
                    seq![TsSymSrc::Const(c, prefix, exported, parent)]
                },
                None => seq![TsSymSrc::Const(c, prefix, exported, parent)],
            }
        } else {
            seq![]
        }
    }
}

/// What the class declaration `n` yields with the outer decorators `outer`:
/// its supertypes, its methods, then itself.
pub open spec fn class_out(t: SyntaxTree, n: int, prefix: Seq<char>, exported: bool, outer: Seq<Seq<char>>) -> TsOut {
    match field_text(t, n, "name"@) {
        Some(nm) => {
            let qn = crate::parser::go::qualified_spec(prefix, nm);
            TsOut {
                syms: class_members(t, n, nm, qn).0.push(TsSymSrc::Class(n, prefix, exported, class_attrs(t, n, outer))),
                deps: heritage_deps(t, n, qn),
            }
        },
        None => ts_out_none(),
    }
}

/// What the interface declaration `n` yields: its supertypes, its method
/// signatures, then itself.
pub open spec fn interface_out(t: SyntaxTree, n: int, prefix: Seq<char>, exported: bool) -> TsOut {
    match field_text(t, n, "name"@) {
        Some(nm) => {
            let qn = crate::parser::go::qualified_spec(prefix, nm);
            TsOut {
                syms: interface_members(t, n, nm, qn).0.push(TsSymSrc::Interface(n, prefix, exported)),
                deps: heritage_deps(t, n, qn),
            }
        },
        None => ts_out_none(),
    }
}

/// `new` is `old` followed by one symbol and one dependency per source of
/// `out`, in order, each what its source yields.
pub open spec fn ts_extends(old: Ir, new: Ir, out: TsOut, t: SyntaxTree, path: Seq<char>) -> bool {
    &&& new.symbols@.len() == old.symbols@.len() + out.syms.len()
    &&& new.dependencies@.len() == old.dependencies@.len() + out.deps.len()
    &&& forall|i: int| 0 <= i < old.symbols@.len() ==> #[trigger] new.symbols@[i] == old.symbols@[i]
    &&& forall|i: int| 0 <= i < old.dependencies@.len() ==> #[trigger] new.dependencies@[i] == old.dependencies@[i]
    &&& forall|k: int| 0 <= k < out.syms.len() ==> ts_sym_from(
        #[trigger] new.symbols@[old.symbols@.len() + k],
        out.syms[k],
        t,
        path,
    )
    &&& forall|k: int| 0 <= k < out.deps.len() ==> ts_dep_from(
        #[trigger] new.dependencies@[old.dependencies@.len() + k],
        out.deps[k],
        t,
        path,
    )
}

pub proof fn lemma_ts_extends_trans(a: Ir, b: Ir, c: Ir, o1: TsOut, o2: TsOut, t: SyntaxTree, path: Seq<char>)
    requires
        ts_extends(a, b, o1, t, path),
        ts_extends(b, c, o2, t, path),
    ensures
        ts_extends(a, c, ts_out_cat(o1, o2), t, path),
{
    let al = a.symbols@.len() as int;
    let ad = a.dependencies@.len() as int;
    let o = ts_out_cat(o1, o2);
    assert forall|i: int| 0 <= i < a.symbols@.len() implies #[trigger] c.symbols@[i] == a.symbols@[i] by {
        assert(c.symbols@[i] == b.symbols@[i]);
    }
    assert forall|i: int| 0 <= i < a.dependencies@.len() implies #[trigger] c.dependencies@[i] == a.dependencies@[i] by {
        assert(c.dependencies@[i] == b.dependencies@[i]);
    }
    assert forall|k: int| 0 <= k < o.syms.len() implies ts_sym_from(#[trigger] c.symbols@[al + k], o.syms[k], t, path) by {
        if k < o1.syms.len() {
            assert(c.symbols@[al + k] == b.symbols@[al + k]);
        } else {
            let j = k - o1.syms.len();
            assert(b.symbols@.len() + j == al + k);
            assert(ts_sym_from(c.symbols@[b.symbols@.len() + j], o2.syms[j], t, path));
        }
    }
    assert forall|k: int| 0 <= k < o.deps.len() implies ts_dep_from(#[trigger] c.dependencies@[ad + k], o.deps[k], t, path) by {
        if k < o1.deps.len() {
            assert(c.dependencies@[ad + k] == b.dependencies@[ad + k]);
        } else {
            let j = k - o1.deps.len();
            assert(b.dependencies@.len() + j == ad + k);
            assert(ts_dep_from(c.dependencies@[b.dependencies@.len() + j], o2.deps[j], t, path));
        }
    }
}

pub proof fn lemma_ts_extends_refl(a: Ir, t: SyntaxTree, path: Seq<char>)
    ensures
        ts_extends(a, a, ts_out_none(), t, path),
{
}

proof fn lemma_pushed_ts_symbol(a: Ir, b: Ir, s: Symbol, src: TsSymSrc, t: SyntaxTree, path: Seq<char>)
    requires
        b.symbols@ == a.symbols@.push(s),
        b.dependencies@ == a.dependencies@,
        ts_sym_from(s, src, t, path),
    ensures
        ts_extends(a, b, ts_syms(seq![src]), t, path),
{
    assert(b.symbols@[a.symbols@.len() + 0int] == s);
}

proof fn lemma_pushed_ts_dep(a: Ir, b: Ir, d: Dependency, src: TsDepSrc, t: SyntaxTree, path: Seq<char>)
    requires
        b.dependencies@ == a.dependencies@.push(d),
        b.symbols@ == a.symbols@,
        ts_dep_from(d, src, t, path),
    ensures
        ts_extends(a, b, ts_deps(seq![src]), t, path),
{
    assert(b.dependencies@[a.dependencies@.len() + 0int] == d);
}

/// The part of a qualified name before its last `.`.
pub open spec fn qualifier_of(q: Seq<char>) -> Option<Seq<char>> {
    match rfind_char(q, '.') {
        Some(i) => Some(q.take(i)),
        None => None,
    }
}

/// `p` names the scope just around the qualified name `q`: what comes
/// before `q`'s last `.` is `p`, or ends with `.` and `p`.
pub open spec fn named_scope(q: Seq<char>, p: Seq<char>) -> bool {
    match qualifier_of(q) {
        Some(h) => h == p || ends_with(h, "."@ + p),
        None => false,
    }
}

/// `a` and `b` agree in everything but their parent: `a` keeps `b`'s
/// parent where `b` has one, and where only `a` has one it names the scope
/// around `a`'s qualified name (a namespace gives its name to the direct
/// members that have none).
pub open spec fn same_but_parent(a: Symbol, b: Symbol) -> bool {
    &&& (b.parent is Some ==> a.parent == b.parent)
    &&& (b.parent is None && a.parent is Some ==> named_scope(a.qualified_name@, a.parent->Some_0@))
    &&& a.name == b.name
    &&& a.qualified_name == b.qualified_name
    &&& a.kind == b.kind
    &&& a.loc == b.loc
    &&& a.visibility == b.visibility
    &&& a.signature == b.signature
    &&& a.attributes == b.attributes
    &&& a.fields == b.fields
    &&& a.params == b.params
    &&& a.return_type == b.return_type
}

/// `s` is what `src` yields, but for its parent, which a namespace around
/// it may have set.
pub open spec fn ts_sym_from_loose(s: Symbol, src: TsSymSrc, t: SyntaxTree, path: Seq<char>) -> bool {
    exists|s2: Symbol| same_but_parent(s, s2) && #[trigger] ts_sym_from(s2, src, t, path)
}

/// Like `ts_extends`, except that parents may have been set by namespaces,
/// on the new symbols and on the old ones.
pub open spec fn ts_extends_loose(old: Ir, new: Ir, out: TsOut, t: SyntaxTree, path: Seq<char>) -> bool {
    &&& new.symbols@.len() == old.symbols@.len() + out.syms.len()
    &&& new.dependencies@.len() == old.dependencies@.len() + out.deps.len()
    &&& forall|i: int| 0 <= i < old.symbols@.len() ==> same_but_parent(#[trigger] new.symbols@[i], old.symbols@[i])
    &&& forall|i: int| 0 <= i < old.dependencies@.len() ==> #[trigger] new.dependencies@[i] == old.dependencies@[i]
    &&& forall|k: int| 0 <= k < out.syms.len() ==> ts_sym_from_loose(
        #[trigger] new.symbols@[old.symbols@.len() + k],
        out.syms[k],
        t,
        path,
    )
    &&& forall|k: int| 0 <= k < out.deps.len() ==> ts_dep_from(
        #[trigger] new.dependencies@[old.dependencies@.len() + k],
        out.deps[k],
        t,
        path,
    )
}

pub proof fn lemma_ts_loose_of_exact(a: Ir, b: Ir, o: TsOut, t: SyntaxTree, path: Seq<char>)
    requires
        ts_extends(a, b, o, t, path),
    ensures
        ts_extends_loose(a, b, o, t, path),
{
    assert forall|k: int| 0 <= k < o.syms.len() implies ts_sym_from_loose(
        #[trigger] b.symbols@[a.symbols@.len() + k],
        o.syms[k],
        t,
        path,
    ) by {
        let s = b.symbols@[a.symbols@.len() + k];
        assert(same_but_parent(s, s) && ts_sym_from(s, o.syms[k], t, path));
    }
}

pub proof fn lemma_ts_loose_trans(a: Ir, b: Ir, c: Ir, o1: TsOut, o2: TsOut, t: SyntaxTree, path: Seq<char>)
    requires
        ts_extends_loose(a, b, o1, t, path),
        ts_extends_loose(b, c, o2, t, path),
    ensures
        ts_extends_loose(a, c, ts_out_cat(o1, o2), t, path),
{
    let al = a.symbols@.len() as int;
    let ad = a.dependencies@.len() as int;
    let o = ts_out_cat(o1, o2);
    assert forall|i: int| 0 <= i < a.symbols@.len() implies same_but_parent(#[trigger] c.symbols@[i], a.symbols@[i]) by {
        assert(same_but_parent(c.symbols@[i], b.symbols@[i]));
    }
    assert forall|i: int| 0 <= i < a.dependencies@.len() implies #[trigger] c.dependencies@[i] == a.dependencies@[i] by {
        assert(c.dependencies@[i] == b.dependencies@[i]);
    }
    assert forall|k: int| 0 <= k < o.syms.len() implies ts_sym_from_loose(#[trigger] c.symbols@[al + k], o.syms[k], t, path) by {
        if k < o1.syms.len() {
            assert(same_but_parent(c.symbols@[al + k], b.symbols@[al + k]));
            assert(ts_sym_from_loose(b.symbols@[al + k], o1.syms[k], t, path));
            let s2 = choose|s2: Symbol| same_but_parent(b.symbols@[al + k], s2) && #[trigger] ts_sym_from(s2, o1.syms[k], t, path);
            assert(same_but_parent(c.symbols@[al + k], s2) && ts_sym_from(s2, o.syms[k], t, path));
        } else {
            let j = k - o1.syms.len();
            assert(b.symbols@.len() + j == al + k);
            assert(ts_sym_from_loose(c.symbols@[b.symbols@.len() + j], o2.syms[j], t, path));
        }
    }
    assert forall|k: int| 0 <= k < o.deps.len() implies ts_dep_from(#[trigger] c.dependencies@[ad + k], o.deps[k], t, path) by {
        if k < o1.deps.len() {
            assert(c.dependencies@[ad + k] == b.dependencies@[ad + k]);
        } else {
            let j = k - o1.deps.len();
            assert(b.dependencies@.len() + j == ad + k);
            assert(ts_dep_from(c.dependencies@[b.dependencies@.len() + j], o2.deps[j], t, path));
        }
    }
}

/// What a function declaration yields with the attributes `attrs`.
pub open spec fn func_out(t: SyntaxTree, c: int, prefix: Seq<char>, exported: bool, parent: Option<Seq<char>>, attrs: Seq<Seq<char>>) -> TsOut {
    if field_text(t, c, "name"@) is Some {
        ts_syms(seq![TsSymSrc::Func(c, prefix, exported, parent, attrs)])
    } else {
        ts_out_none()
    }
}

/// What a named enum or type alias yields.
pub open spec fn named_out(t: SyntaxTree, c: int, src: TsSymSrc) -> TsOut {
    if field_text(t, c, "name"@) is Some {
        ts_syms(seq![src])
    } else {
        ts_out_none()
    }
}

/// What one declaration `c` inside an export statement yields.
pub open spec fn decl_out(
    t: SyntaxTree,
    c: int,
    prefix: Seq<char>,
    exported: bool,
    parent: Option<Seq<char>>,
    decos: Seq<Seq<char>>,
) -> TsOut
    decreases t.len() - c, 1int, 0int,
{
    if !(0 <= c < t.len()) {
        ts_out_none()
    } else {
        let k = t.kind(c);
        if k == "function_declaration"@ {
            func_out(t, c, prefix, exported, parent, decos)
        } else if k == "lexical_declaration"@ {
            ts_syms(lexical_in(t, t.children(c), prefix, exported, parent))
        } else if k == "class_declaration"@ || k == "abstract_class_declaration"@ {
            class_out(t, c, prefix, exported, decos)
        } else if k == "interface_declaration"@ {
            interface_out(t, c, prefix, exported)
        } else if k == "enum_declaration"@ {
            named_out(t, c, TsSymSrc::Enum(c, prefix, exported))
        } else if k == "type_alias_declaration"@ {
            named_out(t, c, TsSymSrc::Alias(c, prefix, exported))
        } else if k == "internal_module"@ {
            namespace_out(t, c, prefix, exported)
        } else {
            ts_out_none()
        }
    }
}

/// What the declarations among `cs`, children of the export statement `n`,
/// yield.
pub open spec fn decls_in(
    t: SyntaxTree,
    n: int,
    cs: Seq<usize>,
    prefix: Seq<char>,
    exported: bool,
    parent: Option<Seq<char>>,
    decos: Seq<Seq<char>>,
) -> TsOut
    decreases t.len() - n, 2int, cs.len(),
{
    if cs.len() == 0 || !(0 <= n < t.len()) {
        ts_out_none()
    } else {
        let c = cs.last() as int;
        ts_out_cat(
            decls_in(t, n, cs.drop_last(), prefix, exported, parent, decos),
            if n < c < t.len() {
                decl_out(t, c, prefix, exported, parent, decos)
            } else {
                ts_out_none()
            },
        )
    }
}

/// What the namespace `n` yields: itself, then its declarations under its
/// name.
pub open spec fn namespace_out(t: SyntaxTree, n: int, prefix: Seq<char>, exported: bool) -> TsOut
    decreases t.len() - n, 0int, 0int,
{
    if !(0 <= n < t.len()) {
        ts_out_none()
    } else {
        match ns_name(t, n) {
            None => ts_out_none(),
            Some(nm) => {
                let me = ts_syms(seq![TsSymSrc::Namespace(n, prefix, exported)]);
                match child_of_kind(t, n, "statement_block"@) {
                    Some(b) => if n < b < t.len() {
                        ts_out_cat(
                            me,
                            items_in(t, b as int, t.children(b as int), crate::parser::go::qualified_spec(prefix, nm), exported, None).0,
                        )
                    } else {
                        me
                    },
                    None => me,
                }
            },
        }
    }
}

/// What the entries `cs` of `n` yield, and the decorators still pending
/// after them; each run of decorators goes to the declaration that follows.
pub open spec fn items_in(
    t: SyntaxTree,
    n: int,
    cs: Seq<usize>,
    prefix: Seq<char>,
    exported: bool,
    parent: Option<Seq<char>>,
) -> (TsOut, Seq<Seq<char>>)
    decreases t.len() - n, 3int, cs.len(),
{
    if cs.len() == 0 || !(0 <= n < t.len()) {
        (ts_out_none(), seq![])
    } else {
        let (o, p) = items_in(t, n, cs.drop_last(), prefix, exported, parent);
        let c = cs.last() as int;
        if !(n < c < t.len()) {
            (o, p)
        } else {
            let k = t.kind(c);
            if k == "decorator"@ {
                (o, p.push(t.text(c)))
            } else if k == "import_statement"@ {
                (
                    ts_out_cat(
                        o,
                        if ts_import_module(t, c) is Some {
                            ts_deps(seq![TsDepSrc::Import(c, prefix)])
                        } else {
                            ts_out_none()
                        },
                    ),
                    seq![],
                )
            } else if k == "export_statement"@ {
                (
                    ts_out_cat(
                        o,
                        decls_in(t, c, t.children(c), prefix, true, parent, p + texts_of_kind(t, t.children(c), "decorator"@)),
                    ),
                    seq![],
                )
            } else if k == "function_declaration"@ {
                (ts_out_cat(o, func_out(t, c, prefix, exported, parent, p)), seq![])
            } else if k == "lexical_declaration"@ {
                (ts_out_cat(o, ts_syms(lexical_in(t, t.children(c), prefix, exported, parent))), seq![])
            } else if k == "class_declaration"@ || k == "abstract_class_declaration"@ {
                (ts_out_cat(o, class_out(t, c, prefix, exported, p)), seq![])
            } else if k == "interface_declaration"@ {
                (ts_out_cat(o, interface_out(t, c, prefix, exported)), seq![])
            } else if k == "enum_declaration"@ {
                (ts_out_cat(o, named_out(t, c, TsSymSrc::Enum(c, prefix, exported))), seq![])
            } else if k == "type_alias_declaration"@ {
                (ts_out_cat(o, named_out(t, c, TsSymSrc::Alias(c, prefix, exported))), seq![])
            } else if k == "internal_module"@ {
                (ts_out_cat(o, namespace_out(t, c, prefix, exported)), seq![])
            } else {
                (o, p)
            }
        }
    }
}

/// The IR of the file `path` is what its top-level statements yield, in
/// order, but for parents that namespaces set on members that had none.
pub open spec fn ts_ir_loose_exact(ir: Ir, t: SyntaxTree, path: Seq<char>) -> bool {
    let out = items_in(t, 0, t.children(0), ts_module_prefix_spec(path), false, None).0;
    &&& ir.symbols@.len() == out.syms.len()
    &&& ir.dependencies@.len() == out.deps.len()
    &&& forall|k: int| 0 <= k < out.syms.len() ==> ts_sym_from_loose(#[trigger] ir.symbols@[k], out.syms[k], t, path)
    &&& forall|k: int| 0 <= k < out.deps.len() ==> ts_dep_from(#[trigger] ir.dependencies@[k], out.deps[k], t, path)
}

/// Is `s` a direct member of the namespace qualified `qn` that has no
/// parent yet?
pub open spec fn adoptable(s: Symbol, qn: Seq<char>) -> bool {
    let pd = qn + "."@;
    &&& s.parent is None
    &&& starts_with(s.qualified_name@, pd)
    &&& s.qualified_name@ != qn
    &&& forall|k: int| pd.len() <= k < s.qualified_name@.len() ==> s.qualified_name@[k] != '.'
}

// ---------------------------------------------------------------------------
// Small helpers
// ---------------------------------------------------------------------------

/// Append copies of the strings of `src` to `dst`.
pub fn extend_cloned(dst: &mut Vec<String>, src: &Vec<String>)
    ensures
        final(dst)@.len() == old(dst)@.len() + src@.len(),
        forall|i: int| 0 <= i < old(dst)@.len() ==> #[trigger] final(dst)@[i] == old(dst)@[i],
        forall|i: int| 0 <= i < src@.len() ==> #[trigger] final(dst)@[old(dst)@.len() + i]@ == src@[i]@,
{
    let mut k: usize = 0;
    while k < src.len()
        invariant
            k <= src.len(),
            dst@.len() == old(dst)@.len() + k,
            forall|i: int| 0 <= i < old(dst)@.len() ==> #[trigger] dst@[i] == old(dst)@[i],
            forall|i: int| 0 <= i < k ==> #[trigger] dst@[old(dst)@.len() + i]@ == src@[i]@,
        decreases src.len() - k,
    {
        dst.push(src[k].clone());
        k += 1;
    }
}

/// The text of the `name` field of `n`.
fn get_name(t: &SyntaxTree, n: usize) -> (r: Option<String>)
    requires
        t.wf(),
        n < t.len(),
    ensures
        match r {
            Some(x) => field_text(*t, n as int, "name"@) == Some(x@),
            None => field_text(*t, n as int, "name"@) is None,
        },
{
    match child_by_field_name(t, n, "name") {
        Some(c) => Some(node_text(t, c)),
        None => None,
    }
}

fn vis_of(exported: bool) -> (r: Visibility)
    ensures
        r == (if exported { Visibility::Public } else { Visibility::Private }),
{
    if exported {
        Visibility::Public
    } else {
        Visibility::Private
    }
}

fn qualify(prefix: &str, name: &str) -> (r: String)
    ensures
        r@ == crate::parser::go::qualified_spec(prefix@, name@),
{
    crate::parser::go::qualified(prefix, name)
}

/// `text` without a leading `: `.
fn strip_colon(text: &str) -> (r: String)
    ensures
        r@ == strip_prefix(text@, ": "@),
{
    strip_prefix_str(text, ": ")
}

/// The visibility the first `accessibility_modifier` child of `n` gives.
pub open spec fn ts_member_vis(t: SyntaxTree, n: int) -> Visibility {
    match child_of_kind(t, n, "accessibility_modifier"@) {
        Some(m) => if t.text(m as int) == "private"@ {
            Visibility::Private
        } else if t.text(m as int) == "protected"@ {
            Visibility::Crate
        } else {
            Visibility::Public
        },
        None => Visibility::Public,
    }
}

/// The visibility an `accessibility_modifier` child gives; public without.
fn member_visibility(t: &SyntaxTree, n: usize) -> (r: Visibility)
    requires
        t.wf(),
        n < t.len(),
    ensures
        r == ts_member_vis(*t, n as int),
{
    match find_child_by_kind(t, n, "accessibility_modifier") {
        Some(m) => {
            let text = t.nodes[m].text.as_str();
            if str_eq(text, "private") {
                Visibility::Private
            } else if str_eq(text, "protected") {
                Visibility::Crate
            } else {
                Visibility::Public
            }
        },
        None => Visibility::Public,
    }
}

/// Does some child of `n` have the kind or the text `m`?
pub open spec fn has_modifier_spec(t: SyntaxTree, n: int, m: Seq<char>) -> bool {
    exists|i: int|
        0 <= i < t.children(n).len() && (t.kind(#[trigger] t.children(n)[i] as int) == m || t.text(
            t.children(n)[i] as int,
        ) == m)
}

/// Whether some child of `n` has the kind or the text `modifier`.
fn has_modifier(t: &SyntaxTree, n: usize, modifier: &str) -> (r: bool)
    requires
        t.wf(),
        n < t.len(),
    ensures
        r == has_modifier_spec(*t, n as int, modifier@),
{
    let cs = &t.nodes[n].children;
    let ghost all = t.children(n as int);
    proof {
        lemma_children_after(*t, n as int);
    }
    let mut i: usize = 0;
    while i < cs.len()
        invariant
            i <= cs.len(),
            t.wf(),
            all == cs@,
            all == t.children(n as int),
            forall|j: int| 0 <= j < all.len() ==> n < #[trigger] all[j] < t.len(),
            forall|j: int| 0 <= j < i ==> !(t.kind(#[trigger] all[j] as int) == modifier@ || t.text(all[j] as int) == modifier@),
        decreases cs.len() - i,
    {
        let c = cs[i];
        assert(all[i as int] == c);
        if kind_is(t, c, modifier) || str_eq(t.nodes[c].text.as_str(), modifier) {
            return true;
        }
        i += 1;
    }
    false
}

/// The texts of the decorator children of `n`.
fn extract_decorators(t: &SyntaxTree, n: usize) -> (r: Vec<String>)
    requires
        t.wf(),
        n < t.len(),
    ensures
        views(r@) == texts_of_kind(*t, t.children(n as int), "decorator"@),
{
    let mut out: Vec<String> = Vec::new();
    let cs = &t.nodes[n].children;
    let ghost all = t.children(n as int);
    proof {
        lemma_children_after(*t, n as int);
        assert(all.take(0) =~= Seq::<usize>::empty());
        assert(views(out@) =~= Seq::<Seq<char>>::empty());
    }
    let mut i: usize = 0;
    while i < cs.len()
        invariant
            i <= cs.len(),
            t.wf(),
            all == cs@,
            forall|j: int| 0 <= j < all.len() ==> n < #[trigger] all[j] < t.len(),
            views(out@) == texts_of_kind(*t, all.take(i as int), "decorator"@),
        decreases cs.len() - i,
    {
        let c = cs[i];
        assert(all[i as int] == c);
        assert(all.take(i + 1).drop_last() =~= all.take(i as int));
        if kind_is(t, c, "decorator") {
            out.push(node_text(t, c));
        }
        assert(views(out@) =~= texts_of_kind(*t, all.take(i + 1), "decorator"@));
        i += 1;
    }
    assert(all.take(cs.len() as int) =~= all);
    out
}

/// The text of the field `f` of `n`, else of its first `type_annotation`
/// child, without a leading `: `.
pub open spec fn ts_annotation(t: SyntaxTree, n: int, f: Seq<char>) -> Option<Seq<char>> {
    match child_in_field(t, n, f) {
        Some(c) => Some(strip_prefix(t.text(c as int), ": "@)),
        None => match child_of_kind(t, n, "type_annotation"@) {
            Some(c) => Some(strip_prefix(t.text(c as int), ": "@)),
            None => None,
        },
    }
}

pub open spec fn opt_seq(o: Option<String>) -> Option<Seq<char>> {
    match o {
        Some(x) => Some(x@),
        None => None,
    }
}

/// The text of a type: the `type` field, else the first `type_annotation`
/// child, without a leading `: `.
fn type_annotation(t: &SyntaxTree, n: usize) -> (r: Option<String>)
    requires
        t.wf(),
        n < t.len(),
    ensures
        opt_seq(r) == ts_annotation(*t, n as int, "type"@),
{
    match child_by_field_name(t, n, "type") {
        Some(c) => Some(strip_colon(t.nodes[c].text.as_str())),
        None => match find_child_by_kind(t, n, "type_annotation") {
            Some(c) => Some(strip_colon(t.nodes[c].text.as_str())),
            None => None,
        },
    }
}

/// The return type: the `return_type` field, else the first
/// `type_annotation` child, without a leading `: `.
fn return_type(t: &SyntaxTree, n: usize) -> (r: Option<String>)
    requires
        t.wf(),
        n < t.len(),
    ensures
        opt_seq(r) == ts_annotation(*t, n as int, "return_type"@),
{
    match child_by_field_name(t, n, "return_type") {
        Some(c) => Some(strip_colon(t.nodes[c].text.as_str())),
        None => match find_child_by_kind(t, n, "type_annotation") {
            Some(c) => Some(strip_colon(t.nodes[c].text.as_str())),
            None => None,
        },
    }
}

/// The parameter list node of a function-like node `n`.
pub open spec fn ts_params_node(t: SyntaxTree, n: int) -> Option<usize> {
    match child_in_field(t, n, "parameters"@) {
        Some(c) => Some(c),
        None => child_of_kind(t, n, "formal_parameters"@),
    }
}

/// The parameter list node of a function-like node.
fn params_node(t: &SyntaxTree, n: usize) -> (r: Option<usize>)
    requires
        t.wf(),
        n < t.len(),
    ensures
        r == ts_params_node(*t, n as int),
        r matches Some(c) ==> n < c < t.len(),
{
    match child_by_field_name(t, n, "parameters") {
        Some(c) => Some(c),
        None => find_child_by_kind(t, n, "formal_parameters"),
    }
}

/// The name a parameter node declares: its pattern, else its identifier.
pub open spec fn ts_param_name(t: SyntaxTree, c: int) -> Seq<char> {
    match child_in_field(t, c, "pattern"@) {
        Some(p) => t.text(p as int),
        None => match child_of_kind(t, c, "identifier"@) {
            Some(p) => t.text(p as int),
            None => seq![],
        },
    }
}

/// The named required and optional parameters among `cs`.
pub open spec fn ts_params_in(t: SyntaxTree, cs: Seq<usize>) -> Seq<(Seq<char>, Seq<char>)>
    decreases cs.len(),
{
    if cs.len() == 0 {
        seq![]
    } else {
        let c = cs.last() as int;
        ts_params_in(t, cs.drop_last()) + if (t.kind(c) == "required_parameter"@ || t.kind(c) == "optional_parameter"@)
            && ts_param_name(t, c).len() > 0 {
            seq![
                (ts_param_name(t, c), match ts_annotation(t, c, "type"@) {
                    Some(x) => x,
                    None => seq![],
                }),
            ]
        } else {
            seq![]
        }
    }
}

/// The parameters of the function-like node `n`.
pub open spec fn ts_params_spec(t: SyntaxTree, n: int) -> Seq<(Seq<char>, Seq<char>)> {
    match ts_params_node(t, n) {
        Some(l) => ts_params_in(t, t.children(l as int)),
        None => seq![],
    }
}

/// The required and optional parameters of a function-like node.
fn extract_formal_params(t: &SyntaxTree, n: usize) -> (r: Vec<Param>)
    requires
        t.wf(),
        n < t.len(),
    ensures
        params_view(r@) == ts_params_spec(*t, n as int),
        forall|k: int| 0 <= k < r@.len() ==> (#[trigger] r@[k]).name@.len() > 0,
{
    let mut params: Vec<Param> = Vec::new();
    assert(params_view(params@) =~= Seq::<(Seq<char>, Seq<char>)>::empty());
    let l = match params_node(t, n) {
        Some(l) => l,
        None => {
            return params;
        },
    };
    let cs = &t.nodes[l].children;
    let ghost all = t.children(l as int);
    proof {
        lemma_children_after(*t, l as int);
        assert(all.take(0) =~= Seq::<usize>::empty());
    }
    let mut i: usize = 0;
    while i < cs.len()
        invariant
            i <= cs.len(),
            t.wf(),
            all == cs@,
            forall|j: int| 0 <= j < all.len() ==> l < #[trigger] all[j] < t.len(),
            forall|k: int| 0 <= k < params@.len() ==> (#[trigger] params@[k]).name@.len() > 0,
            params_view(params@) == ts_params_in(*t, all.take(i as int)),
        decreases cs.len() - i,
    {
        let c = cs[i];
        assert(all[i as int] == c);
        assert(all.take(i + 1).drop_last() =~= all.take(i as int));
        if kind_is(t, c, "required_parameter") || kind_is(t, c, "optional_parameter") {
            let name = match child_by_field_name(t, c, "pattern") {
                Some(p) => node_text(t, p),
                None => match find_child_by_kind(t, c, "identifier") {
                    Some(p) => node_text(t, p),
                    None => String::new(),
                },
            };
            assert(name@ == ts_param_name(*t, c as int));
            let ty = match type_annotation(t, c) {
                Some(x) => x,
                None => String::new(),
            };
            if !name.as_str().is_empty() {
                params.push(Param { name, type_str: ty });
            }
        }
        assert(params_view(params@) =~= ts_params_in(*t, all.take(i + 1)));
        i += 1;
    }
    assert(all.take(cs.len() as int) =~= all);
    params
}

/// The parameter text of `n` (`()` without one), then `: ret` with a
/// return type.
pub open spec fn ts_params_and_return(t: SyntaxTree, n: int) -> Seq<char> {
    let p: Seq<char> = match ts_params_node(t, n) {
        Some(l) => t.text(l as int),
        None => "()"@,
    };
    match ts_annotation(t, n, "return_type"@) {
        Some(r) => p + ": "@ + r,
        None => p,
    }
}

/// The parameter text of a function-like node (`()` without one) followed
/// by `: ret` when it declares a return type.
fn params_and_return(t: &SyntaxTree, n: usize) -> (r: String)
    requires
        t.wf(),
        n < t.len(),
    ensures
        r@ == ts_params_and_return(*t, n as int),
{
    let mut s = match params_node(t, n) {
        Some(p) => node_text(t, p),
        None => owned("()"),
    };
    match return_type(t, n) {
        Some(r) => {
            push_str(&mut s, ": ");
            push_str(&mut s, r.as_str());
        },
        None => {},
    }
    s
}

/// The first line of `s`, without a `\r` before its line break.
pub open spec fn first_line_spec(s: Seq<char>) -> Seq<char> {
    match first_index(s, '\n') {
        Some(q) => s.take(
            if q > 0 && s[q - 1] == '\r' {
                q - 1
            } else {
                q
            },
        ),
        None => s,
    }
}

/// The first line of a text (without a `\r` before its line break).
fn first_line(text: &str) -> (r: String)
    ensures
        r@ == first_line_spec(text@),
{
    let v = chars_of(text);
    match first_index_exec(&v, '\n') {
        Some(q) => {
            let end = if q > 0 && v[q - 1] == '\r' {
                q - 1
            } else {
                q
            };
            let r = string_of(&v, 0, end);
            assert(r@ =~= text@.take(end as int));
            r
        },
        None => owned(text),
    }
}

// ---------------------------------------------------------------------------
// Imports, heritage
// ---------------------------------------------------------------------------

/// Where a file's imports come from: its module, or `(file)` without one.
pub open spec fn ts_import_from(prefix: Seq<char>) -> Seq<char> {
    if prefix.len() == 0 {
        "(file)"@
    } else {
        prefix
    }
}

/// The module an import statement names: its string without quotes.
pub open spec fn ts_import_module(t: SyntaxTree, n: int) -> Option<Seq<char>> {
    match child_of_kind(t, n, "string"@) {
        Some(s) => Some(trim_matches_spec(trim_matches_spec(t.text(s as int), '\''), '"')),
        None => None,
    }
}

/// The module an import statement names, from the module `prefix` (or
/// `(file)` without one).
fn extract_import(t: &SyntaxTree, n: usize, path: &str, prefix: &str) -> (r: Option<Dependency>)
    requires
        t.wf(),
        n < t.len(),
    ensures
        r matches Some(d) ==> d.kind == DepKind::Import && d.loc.file@ == path@ && (d.from_qualified@
            == "(file)"@ || d.from_qualified@ == prefix@),
        match r {
            Some(d) => ts_import_module(*t, n as int) == Some(d.to_name@) && d.from_qualified@ == ts_import_from(prefix@)
                && is_loc_of(d.loc, *t, n as int, path@),
            None => ts_import_module(*t, n as int) is None,
        },
{
    let s = match find_child_by_kind(t, n, "string") {
        Some(s) => s,
        None => {
            return None;
        },
    };
    let a = trim_matches(t.nodes[s].text.as_str(), '\'');
    let module_name = trim_matches(a.as_str(), '"');
    let from = if prefix.is_empty() {
        owned("(file)")
    } else {
        owned(prefix)
    };
    Some(Dependency { from_qualified: from, to_name: module_name, kind: DepKind::Import, loc: loc_of(t, n, path) })
}

/// The types an extends or implements clause names.
fn type_refs_from_clause(
    t: &SyntaxTree,
    clause: usize,
    path: &str,
    qualified: &str,
    ir: &mut Ir,
    Ghost(pkg): Ghost<Seq<char>>,
)
    requires
        t.wf(),
        clause < t.len(),
        starts_with(qualified@, pkg),
        ts_ir_ok(*old(ir), pkg, path@),
    ensures
        ts_ir_ok(*final(ir), pkg, path@),
        final(ir).symbols@.len() == old(ir).symbols@.len(),
        ts_extends(*old(ir), *final(ir), ts_deps(super_srcs(qualified@, clause_refs(*t, t.children(clause as int)))), *t, path@),
{
    let cs = &t.nodes[clause].children;
    let ghost all = t.children(clause as int);
    proof {
        lemma_children_after(*t, clause as int);
        lemma_ts_extends_refl(*ir, *t, path@);
        assert(super_srcs(qualified@, clause_refs(*t, all.take(0))) =~= Seq::<TsDepSrc>::empty());
        assert(all.take(0) =~= Seq::<usize>::empty());
    }
    let mut i: usize = 0;
    while i < cs.len()
        invariant
            i <= cs.len(),
            t.wf(),
            all == cs@,
            starts_with(qualified@, pkg),
            forall|j: int| 0 <= j < all.len() ==> clause < #[trigger] all[j] < t.len(),
            ts_ir_ok(*ir, pkg, path@),
            ir.symbols@.len() == old(ir).symbols@.len(),
            ts_extends(*old(ir), *ir, ts_deps(super_srcs(qualified@, clause_refs(*t, all.take(i as int)))), *t, path@),
        decreases cs.len() - i,
    {
        let c = cs[i];
        assert(all[i as int] == c);
        assert(all.take(i + 1).drop_last() =~= all.take(i as int));
        let ghost prev = super_srcs(qualified@, clause_refs(*t, all.take(i as int)));
        let ghost before = *ir;
        if kind_is(t, c, "identifier") || kind_is(t, c, "type_identifier") {
            let name = node_text(t, c);
            if !str_eq(name.as_str(), "extends") && !str_eq(name.as_str(), "implements") {
                let d = Dependency {
                    from_qualified: owned(qualified),
                    to_name: name,
                    kind: DepKind::Implements,
                    loc: loc_of(t, c, path),
                };
                let ghost dv = d;
                push_ts_dep(ir, d, Ghost(pkg), Ghost(path@));
                proof {
                    let src = TsDepSrc::Super(qualified@, t.text(c as int), c as int);
                    lemma_pushed_ts_dep(before, *ir, dv, src, *t, path@);
                    lemma_ts_extends_trans(*old(ir), before, *ir, ts_deps(prev), ts_deps(seq![src]), *t, path@);
                    assert(ts_out_cat(ts_deps(prev), ts_deps(seq![src])) =~= ts_deps(
                        super_srcs(qualified@, clause_refs(*t, all.take(i + 1))),
                    )) by {
                        assert(ts_out_cat(ts_deps(prev), ts_deps(seq![src])).syms =~= Seq::<TsSymSrc>::empty());
                        assert(prev + seq![src] =~= super_srcs(qualified@, clause_refs(*t, all.take(i + 1))));
                    }
                }
            } else {
                assert(super_srcs(qualified@, clause_refs(*t, all.take(i + 1))) =~= prev);
            }
        } else if kind_is(t, c, "generic_type") {
            if t.nodes[c].children.len() > 0 {
                let first = t.nodes[c].children[0];
                proof {
                    lemma_children_after(*t, c as int);
                    assert(t.nodes@[c as int].children@[0] == first);
                }
                let d = Dependency {
                    from_qualified: owned(qualified),
                    to_name: node_text(t, first),
                    kind: DepKind::Implements,
                    loc: loc_of(t, c, path),
                };
                let ghost dv = d;
                push_ts_dep(ir, d, Ghost(pkg), Ghost(path@));
                proof {
                    let src = TsDepSrc::Super(qualified@, t.text(first as int), c as int);
                    lemma_pushed_ts_dep(before, *ir, dv, src, *t, path@);
                    lemma_ts_extends_trans(*old(ir), before, *ir, ts_deps(prev), ts_deps(seq![src]), *t, path@);
                    assert(ts_out_cat(ts_deps(prev), ts_deps(seq![src])) =~= ts_deps(
                        super_srcs(qualified@, clause_refs(*t, all.take(i + 1))),
                    )) by {
                        assert(ts_out_cat(ts_deps(prev), ts_deps(seq![src])).syms =~= Seq::<TsSymSrc>::empty());
                        assert(prev + seq![src] =~= super_srcs(qualified@, clause_refs(*t, all.take(i + 1))));
                    }
                }
            } else {
                assert(super_srcs(qualified@, clause_refs(*t, all.take(i + 1))) =~= prev);
            }
        } else {
            assert(super_srcs(qualified@, clause_refs(*t, all.take(i + 1))) =~= prev);
        }
        i += 1;
    }
    assert(all.take(cs.len() as int) =~= all);
}

/// Whether a kind is an extends or implements clause.
fn is_heritage_clause(t: &SyntaxTree, c: usize) -> (r: bool)
    requires
        c < t.len(),
    ensures
        r == is_heritage_kind(t.kind(c as int)),
{
    kind_is(t, c, "extends_clause") || kind_is(t, c, "extends_type_clause") || kind_is(t, c, "implements_clause")
}

/// The supertypes of a class or interface, from clauses among its children
/// or inside its `class_heritage`.
fn extract_heritage_deps(t: &SyntaxTree, n: usize, path: &str, qualified: &str, ir: &mut Ir, Ghost(pkg): Ghost<Seq<char>>)
    requires
        t.wf(),
        n < t.len(),
        starts_with(qualified@, pkg),
        ts_ir_ok(*old(ir), pkg, path@),
    ensures
        ts_ir_ok(*final(ir), pkg, path@),
        final(ir).symbols@.len() == old(ir).symbols@.len(),
        ts_extends(*old(ir), *final(ir), ts_deps(heritage_deps(*t, n as int, qualified@)), *t, path@),
{
    let mut clauses: Vec<usize> = Vec::new();
    let cs = &t.nodes[n].children;
    let ghost all = t.children(n as int);
    proof {
        lemma_children_after(*t, n as int);
        assert(all.take(0) =~= Seq::<usize>::empty());
    }
    let mut i: usize = 0;
    while i < cs.len()
        invariant
            i <= cs.len(),
            t.wf(),
            n < t.len(),
            all == cs@,
            forall|j: int| 0 <= j < all.len() ==> n < #[trigger] all[j] < t.len(),
            forall|k: int| 0 <= k < clauses@.len() ==> #[trigger] clauses@[k] < t.len(),
            clauses@ == heritage_candidates(*t, all.take(i as int)),
        decreases cs.len() - i,
    {
        let c = cs[i];
        assert(all[i as int] == c);
        assert(all.take(i + 1).drop_last() =~= all.take(i as int));
        let ghost before = clauses@;
        if kind_is(t, c, "class_heritage") {
            let inner = &t.nodes[c].children;
            let ghost ins = t.children(c as int);
            proof {
                lemma_children_after(*t, c as int);
            }
            let mut j: usize = 0;
            while j < inner.len()
                invariant
                    j <= inner.len(),
                    t.wf(),
                    c < t.len(),
                    ins == inner@,
                    forall|k: int| 0 <= k < ins.len() ==> c < #[trigger] ins[k] < t.len(),
                    forall|k: int| 0 <= k < clauses@.len() ==> #[trigger] clauses@[k] < t.len(),
                    clauses@ == before + ins.take(j as int),
                decreases inner.len() - j,
            {
                let h = inner[j];
                assert(ins[j as int] == h);
                clauses.push(h);
                assert(ins.take(j + 1) =~= ins.take(j as int).push(h));
                j += 1;
            }
            assert(ins.take(inner.len() as int) =~= ins);
        } else if is_heritage_clause(t, c) {
            clauses.push(c);
        }
        assert(clauses@ =~= heritage_candidates(*t, all.take(i + 1)));
        i += 1;
    }
    assert(all.take(cs.len() as int) =~= all);
    let ghost hs = clauses@;
    proof {
        lemma_ts_extends_refl(*ir, *t, path@);
        assert(super_srcs(qualified@, heritage_refs(*t, hs.take(0))) =~= Seq::<TsDepSrc>::empty());
        assert(hs.take(0) =~= Seq::<usize>::empty());
    }
    let mut k: usize = 0;
    while k < clauses.len()
        invariant
            k <= clauses.len(),
            t.wf(),
            hs == clauses@,
            starts_with(qualified@, pkg),
            forall|q: int| 0 <= q < clauses@.len() ==> #[trigger] clauses@[q] < t.len(),
            ts_ir_ok(*ir, pkg, path@),
            ir.symbols@.len() == old(ir).symbols@.len(),
            ts_extends(*old(ir), *ir, ts_deps(super_srcs(qualified@, heritage_refs(*t, hs.take(k as int)))), *t, path@),
        decreases clauses.len() - k,
    {
        let c = clauses[k];
        assert(clauses@[k as int] == c);
        assert(hs.take(k + 1).drop_last() =~= hs.take(k as int));
        let ghost before = *ir;
        let ghost prev = heritage_refs(*t, hs.take(k as int));
        if is_heritage_clause(t, c) {
            type_refs_from_clause(t, c, path, qualified, ir, Ghost(pkg));
            proof {
                let more = clause_refs(*t, t.children(c as int));
                lemma_ts_extends_trans(
                    *old(ir),
                    before,
                    *ir,
                    ts_deps(super_srcs(qualified@, prev)),
                    ts_deps(super_srcs(qualified@, more)),
                    *t,
                    path@,
                );
                assert(ts_out_cat(ts_deps(super_srcs(qualified@, prev)), ts_deps(super_srcs(qualified@, more))) =~= ts_deps(
                    super_srcs(qualified@, heritage_refs(*t, hs.take(k + 1))),
                )) by {
                    assert(ts_out_cat(ts_deps(super_srcs(qualified@, prev)), ts_deps(super_srcs(qualified@, more))).syms
                        =~= Seq::<TsSymSrc>::empty());
                    assert(super_srcs(qualified@, prev) + super_srcs(qualified@, more) =~= super_srcs(
                        qualified@,
                        heritage_refs(*t, hs.take(k + 1)),
                    ));
                }
            }
        } else {
            assert(heritage_refs(*t, hs.take(k + 1)) =~= prev);
        }
        k += 1;
    }
    assert(hs.take(clauses.len() as int) =~= hs);
}

// ---------------------------------------------------------------------------
// Declarations
// ---------------------------------------------------------------------------

/// `prefix.parent.name`, `parent.name`, `prefix.name` or `name`.
pub open spec fn ts_member_qualified(prefix: Seq<char>, parent: Option<Seq<char>>, name: Seq<char>) -> Seq<char> {
    match parent {
        Some(p) => if prefix.len() == 0 {
            p + "."@ + name
        } else {
            prefix + "."@ + p + "."@ + name
        },
        None => crate::parser::go::qualified_spec(prefix, name),
    }
}

pub proof fn lemma_member_qualified_starts(prefix: Seq<char>, parent: Option<Seq<char>>, name: Seq<char>, pkg: Seq<char>)
    requires
        starts_with(prefix, pkg),
        pkg.len() > 0 ==> prefix.len() > 0,
    ensures
        starts_with(ts_member_qualified(prefix, parent, name), pkg),
{
    let q = ts_member_qualified(prefix, parent, name);
    if pkg.len() == 0 {
        assert(q.subrange(0, 0) =~= pkg);
    } else {
        assert(q.subrange(0, pkg.len() as int) =~= prefix.subrange(0, pkg.len() as int));
    }
}

fn opt_view(o: Option<&str>) -> (r: Option<String>)
    ensures
        match o {
            Some(p) => r matches Some(x) && x@ == p@,
            None => r is None,
        },
{
    match o {
        Some(p) => Some(owned(p)),
        None => None,
    }
}

/// `prefix.parent.name`, `parent.name`, `prefix.name` or `name`.
fn member_name(prefix: &str, parent: Option<&str>, name: &str) -> (r: String)
    ensures
        r@ == ts_member_qualified(
            prefix@,
            match parent {
                Some(p) => Some(p@),
                None => None,
            },
            name@,
        ),
{
    match parent {
        Some(p) => {
            let mut q = String::new();
            if !prefix.is_empty() {
                push_str(&mut q, prefix);
                push_str(&mut q, ".");
            }
            push_str(&mut q, p);
            push_str(&mut q, ".");
            push_str(&mut q, name);
            q
        },
        None => qualify(prefix, name),
    }
}

pub open spec fn parent_seq(p: Option<&str>) -> Option<Seq<char>> {
    match p {
        Some(x) => Some(x@),
        None => None,
    }
}

/// What the function declaration `n` yields with the attributes `attrs`.
pub open spec fn is_ts_function_symbol(
    s: Symbol,
    t: SyntaxTree,
    n: int,
    path: Seq<char>,
    prefix: Seq<char>,
    exported: bool,
    parent: Option<Seq<char>>,
    attrs: Seq<Seq<char>>,
) -> bool {
    &&& field_text(t, n, "name"@) == Some(s.name@)
    &&& s.qualified_name@ == ts_member_qualified(prefix, parent, s.name@)
    &&& s.kind@ == "function"@
    &&& is_loc_of(s.loc, t, n, path)
    &&& s.visibility == (if exported { Visibility::Public } else { Visibility::Private })
    &&& opt_seq(s.parent) == parent
    &&& s.fields@.len() == 0
    &&& params_view(s.params@) == ts_params_spec(t, n)
    &&& opt_seq(s.return_type) == ts_annotation(t, n, "return_type"@)
    &&& opt_seq(s.signature) == Some("function "@ + s.name@ + ts_params_and_return(t, n))
    &&& views(s.attributes@) == attrs
}

/// A function declaration as a `function` symbol.
fn extract_function(
    t: &SyntaxTree,
    n: usize,
    path: &str,
    prefix: &str,
    exported: bool,
    parent: Option<&str>,
) -> (r: Option<Symbol>)
    requires
        t.wf(),
        n < t.len(),
    ensures
        r matches Some(s) ==> s.loc.file@ == path@ && s.kind@ == "function"@ && s.qualified_name@
            == ts_member_qualified(
            prefix@,
            match parent {
                Some(p) => Some(p@),
                None => None,
            },
            s.name@,
        ),
        r is Some <==> field_text(*t, n as int, "name"@) is Some,
        r matches Some(s) ==> is_ts_function_symbol(s, *t, n as int, path@, prefix@, exported, parent_seq(parent), seq![]),
{
    let name = match get_name(t, n) {
        Some(x) => x,
        None => {
            return None;
        },
    };
    let qn = member_name(prefix, parent, name.as_str());
    let params = extract_formal_params(t, n);
    let ret = return_type(t, n);
    let mut signature = concat("function ", name.as_str());
    let rest = params_and_return(t, n);
    push_str(&mut signature, rest.as_str());
    let attributes: Vec<String> = Vec::new();
    assert(views(attributes@) =~= Seq::<Seq<char>>::empty());
    Some(Symbol {
        name,
        qualified_name: qn,
        kind: owned("function"),
        loc: loc_of(t, n, path),
        visibility: vis_of(exported),
        parent: match parent {
            Some(p) => Some(owned(p)),
            None => None,
        },
        fields: Vec::new(),
        params,
        return_type: ret,
        signature: Some(signature),
        attributes,
    })
}

/// `const`/`let` declarations: arrow functions become `function` symbols,
/// other values `const` symbols.
fn extract_lexical_declaration(
    t: &SyntaxTree,
    n: usize,
    path: &str,
    prefix: &str,
    exported: bool,
    parent: Option<&str>,
    ir: &mut Ir,
    Ghost(pkg): Ghost<Seq<char>>,
)
    requires
        t.wf(),
        n < t.len(),
        starts_with(prefix@, pkg),
        pkg.len() > 0 ==> prefix@.len() > 0,
        ts_ir_ok(*old(ir), pkg, path@),
    ensures
        ts_ir_ok(*final(ir), pkg, path@),
        ts_extends(
            *old(ir),
            *final(ir),
            ts_syms(lexical_in(*t, t.children(n as int), prefix@, exported, parent_seq(parent))),
            *t,
            path@,
        ),
{
    let ghost pv = parent_seq(parent);
    let cs = &t.nodes[n].children;
    let ghost all = t.children(n as int);
    proof {
        lemma_children_after(*t, n as int);
        lemma_ts_extends_refl(*ir, *t, path@);
        assert(all.take(0) =~= Seq::<usize>::empty());
        assert(ts_syms(lexical_in(*t, all.take(0), prefix@, exported, pv)) =~= ts_out_none());
    }
    let mut i: usize = 0;
    while i < cs.len()
        invariant
            i <= cs.len(),
            t.wf(),
            all == cs@,
            pv == parent_seq(parent),
            starts_with(prefix@, pkg),
            pkg.len() > 0 ==> prefix@.len() > 0,
            forall|j: int| 0 <= j < all.len() ==> n < #[trigger] all[j] < t.len(),
            ts_ir_ok(*ir, pkg, path@),
            ts_extends(*old(ir), *ir, ts_syms(lexical_in(*t, all.take(i as int), prefix@, exported, pv)), *t, path@),
        decreases cs.len() - i,
    {
        let c = cs[i];
        assert(all[i as int] == c);
        assert(all.take(i + 1).drop_last() =~= all.take(i as int));
        let ghost prev = lexical_in(*t, all.take(i as int), prefix@, exported, pv);
        let ghost before = *ir;
        if kind_is(t, c, "variable_declarator") {
            match get_name(t, c) {
                Some(name) => {
                    let value = child_by_field_name(t, c, "value");
                    let is_arrow = match value {
                        Some(v) => kind_is(t, v, "arrow_function"),
                        None => false,
                    };
                    if is_arrow {
                        let v = value.unwrap();
                        let qn = member_name(prefix, parent, name.as_str());
                        proof {
                            lemma_member_qualified_starts(prefix@, match parent {
                                Some(p) => Some(p@),
                                None => None,
                            }, name@, pkg);
                        }
                        let params = extract_formal_params(t, v);
                        let ret = return_type(t, v);
                        let mut signature = concat("const ", name.as_str());
                        push_str(&mut signature, " = ");
                        let rest = params_and_return(t, v);
                        push_str(&mut signature, rest.as_str());
                        push_str(&mut signature, " => ...");
                        assert(signature@ =~= arrow_signature(*t, c as int, v as int));
                        let sym = Symbol {
                            name,
                            qualified_name: qn,
                            kind: owned("function"),
                            loc: loc_of(t, c, path),
                            visibility: vis_of(exported),
                            parent: match parent {
                                Some(p) => Some(owned(p)),
                                None => None,
                            },
                            fields: Vec::new(),
                            params,
                            return_type: ret,
                            signature: Some(signature),
                            attributes: Vec::new(),
                        };
                        let ghost sv = sym;
                        push_ts_symbol(ir, sym, Ghost(pkg), Ghost(path@));
                        proof {
                            let src = TsSymSrc::Arrow(c as int, v as int, prefix@, exported, pv);
                            lemma_pushed_ts_symbol(before, *ir, sv, src, *t, path@);
                            lemma_ts_extends_trans(*old(ir), before, *ir, ts_syms(prev), ts_syms(seq![src]), *t, path@);
                            assert(ts_out_cat(ts_syms(prev), ts_syms(seq![src])) =~= ts_syms(
                                lexical_in(*t, all.take(i + 1), prefix@, exported, pv),
                            ));
                        }
                    } else {
                        let qn = qualify(prefix, name.as_str());
                        proof {
                            lemma_dot_extends(prefix@, name@, pkg);
                        }
                        let sym = Symbol {
                            name,
                            qualified_name: qn,
                            kind: owned("const"),
                            loc: loc_of(t, c, path),
                            visibility: vis_of(exported),
                            parent: match parent {
                                Some(p) => Some(owned(p)),
                                None => None,
                            },
                            fields: Vec::new(),
                            params: Vec::new(),
                            return_type: None,
                            signature: None,
                            attributes: Vec::new(),
                        };
                        let ghost sv = sym;
                        push_ts_symbol(ir, sym, Ghost(pkg), Ghost(path@));
                        proof {
                            let src = TsSymSrc::Const(c as int, prefix@, exported, pv);
                            lemma_pushed_ts_symbol(before, *ir, sv, src, *t, path@);
                            lemma_ts_extends_trans(*old(ir), before, *ir, ts_syms(prev), ts_syms(seq![src]), *t, path@);
                            assert(ts_out_cat(ts_syms(prev), ts_syms(seq![src])) =~= ts_syms(
                                lexical_in(*t, all.take(i + 1), prefix@, exported, pv),
                            ));
                        }
                    }
                },
                None => {
                    assert(lexical_in(*t, all.take(i + 1), prefix@, exported, pv) =~= prev);
                },
            }
        } else {
            assert(lexical_in(*t, all.take(i + 1), prefix@, exported, pv) =~= prev);
        }
        i += 1;
    }
    assert(all.take(cs.len() as int) =~= all);
}

/// The name of a member: its `name` field, else a property identifier.
pub open spec fn ts_member_name(t: SyntaxTree, n: int) -> Option<Seq<char>> {
    match field_text(t, n, "name"@) {
        Some(x) => Some(x),
        None => match child_of_kind(t, n, "property_identifier"@) {
            Some(c) => Some(t.text(c as int)),
            None => None,
        },
    }
}

/// The attributes of a class method: its decorators, then `static` and
/// `abstract` when it has those modifiers.
pub open spec fn method_attrs(t: SyntaxTree, n: int) -> Seq<Seq<char>> {
    let d = texts_of_kind(t, t.children(n), "decorator"@);
    let s: Seq<Seq<char>> = if has_modifier_spec(t, n, "static"@) {
        d.push("static"@)
    } else {
        d
    };
    if has_modifier_spec(t, n, "abstract"@) {
        s.push("abstract"@)
    } else {
        s
    }
}

/// What a member `n` of the type (`pname`, `pqn`) yields as a method,
/// with the visibility `vis`, the signature `sig` and the attributes `attrs`.
pub open spec fn is_ts_method_symbol(
    s: Symbol,
    t: SyntaxTree,
    n: int,
    path: Seq<char>,
    pname: Seq<char>,
    pqn: Seq<char>,
    vis: Visibility,
    sig: Seq<char>,
    attrs: Seq<Seq<char>>,
) -> bool {
    &&& ts_member_name(t, n) == Some(s.name@)
    &&& s.qualified_name@ == pqn + "."@ + s.name@
    &&& s.kind@ == "method"@
    &&& is_loc_of(s.loc, t, n, path)
    &&& s.visibility == vis
    &&& opt_seq(s.parent) == Some(pname)
    &&& s.fields@.len() == 0
    &&& params_view(s.params@) == ts_params_spec(t, n)
    &&& opt_seq(s.return_type) == ts_annotation(t, n, "return_type"@)
    &&& opt_seq(s.signature) == Some(sig)
    &&& views(s.attributes@) == attrs
}

/// A class method (or abstract method signature) as a `method` symbol.
fn extract_method(t: &SyntaxTree, n: usize, path: &str, parent_name: &str, parent_qn: &str) -> (r: Option<Symbol>)
    requires
        t.wf(),
        n < t.len(),
    ensures
        r matches Some(s) ==> s.loc.file@ == path@ && s.kind@ == "method"@ && s.qualified_name@ == parent_qn@
            + "."@ + s.name@,
        r is Some <==> ts_member_name(*t, n as int) is Some,
        r matches Some(s) ==> is_ts_method_symbol(
            s,
            *t,
            n as int,
            path@,
            parent_name@,
            parent_qn@,
            ts_member_vis(*t, n as int),
            s.name@ + ts_params_and_return(*t, n as int),
            method_attrs(*t, n as int),
        ),
{
    let name = match get_name(t, n) {
        Some(x) => x,
        None => match find_child_by_kind(t, n, "property_identifier") {
            Some(c) => node_text(t, c),
            None => {
                return None;
            },
        },
    };
    assert(ts_member_name(*t, n as int) == Some(name@));
    let mut qn = owned(parent_qn);
    push_str(&mut qn, ".");
    push_str(&mut qn, name.as_str());
    let vis = member_visibility(t, n);
    let params = extract_formal_params(t, n);
    let ret = return_type(t, n);
    let mut signature = name.clone();
    let rest = params_and_return(t, n);
    push_str(&mut signature, rest.as_str());
    let mut attributes = extract_decorators(t, n);
    if has_modifier(t, n, "static") {
        attributes.push(owned("static"));
    }
    if has_modifier(t, n, "abstract") {
        attributes.push(owned("abstract"));
    }
    assert(views(attributes@) =~= method_attrs(*t, n as int));
    assert(qn@ == parent_qn@ + "."@ + name@);
    Some(Symbol {
        name,
        qualified_name: qn,
        kind: owned("method"),
        loc: loc_of(t, n, path),
        visibility: vis,
        parent: Some(owned(parent_name)),
        fields: Vec::new(),
        params,
        return_type: ret,
        signature: Some(signature),
        attributes,
    })
}

/// The signature an interface method signature shows: its text without a
/// trailing `;`.
pub open spec fn method_sig_text(t: SyntaxTree, n: int) -> Seq<char> {
    trim_end_char(trim(t.text(n)), ';')
}

/// An interface method signature as a public `method` symbol.
fn extract_method_signature(t: &SyntaxTree, n: usize, path: &str, parent_name: &str, parent_qn: &str) -> (r: Option<Symbol>)
    requires
        t.wf(),
        n < t.len(),
    ensures
        r matches Some(s) ==> s.loc.file@ == path@ && s.kind@ == "method"@ && s.qualified_name@ == parent_qn@
            + "."@ + s.name@,
        r is Some <==> ts_member_name(*t, n as int) is Some,
        r matches Some(s) ==> is_ts_method_symbol(
            s,
            *t,
            n as int,
            path@,
            parent_name@,
            parent_qn@,
            Visibility::Public,
            method_sig_text(*t, n as int),
            seq![],
        ),
{
    let name = match get_name(t, n) {
        Some(x) => x,
        None => match find_child_by_kind(t, n, "property_identifier") {
            Some(c) => node_text(t, c),
            None => {
                return None;
            },
        },
    };
    assert(ts_member_name(*t, n as int) == Some(name@));
    let mut qn = owned(parent_qn);
    push_str(&mut qn, ".");
    push_str(&mut qn, name.as_str());
    let params = extract_formal_params(t, n);
    let ret = return_type(t, n);
    let trimmed = trim_str(t.nodes[n].text.as_str());
    let signature = trim_end_matches(trimmed.as_str(), ';');
    assert(qn@ == parent_qn@ + "."@ + name@);
    let attributes: Vec<String> = Vec::new();
    assert(views(attributes@) =~= Seq::<Seq<char>>::empty());
    Some(Symbol {
        name,
        qualified_name: qn,
        kind: owned("method"),
        loc: loc_of(t, n, path),
        visibility: Visibility::Public,
        parent: Some(owned(parent_name)),
        fields: Vec::new(),
        params,
        return_type: ret,
        signature: Some(signature),
        attributes,
    })
}

/// The name of a field: its `name` field, else a property identifier.
fn member_field_name(t: &SyntaxTree, n: usize) -> (r: Option<String>)
    requires
        t.wf(),
        n < t.len(),
    ensures
        opt_seq(r) == ts_member_name(*t, n as int),
{
    match child_by_field_name(t, n, "name") {
        Some(c) => Some(node_text(t, c)),
        None => match find_child_by_kind(t, n, "property_identifier") {
            Some(c) => Some(node_text(t, c)),
            None => None,
        },
    }
}

/// The methods of a class body (with the decorators before each) and its
/// fields.
fn extract_class_body(
    t: &SyntaxTree,
    body: usize,
    path: &str,
    parent_name: &str,
    parent_qn: &str,
    fields: &mut Vec<Field>,
    ir: &mut Ir,
    Ghost(pkg): Ghost<Seq<char>>,
)
    requires
        t.wf(),
        body < t.len(),
        starts_with(parent_qn@, pkg),
        ts_ir_ok(*old(ir), pkg, path@),
    ensures
        ts_ir_ok(*final(ir), pkg, path@),
        ts_extends(*old(ir), *final(ir), ts_syms(class_body_in(*t, t.children(body as int), parent_name@, parent_qn@).0), *t, path@),
        fields_view(final(fields)@) == fields_view(old(fields)@) + class_body_in(
            *t,
            t.children(body as int),
            parent_name@,
            parent_qn@,
        ).1,
{
    let ghost fs0 = fields_view(fields@);
    let mut pending: Vec<String> = Vec::new();
    let cs = &t.nodes[body].children;
    let ghost all = t.children(body as int);
    proof {
        lemma_children_after(*t, body as int);
        lemma_ts_extends_refl(*ir, *t, path@);
        assert(all.take(0) =~= Seq::<usize>::empty());
        assert(ts_syms(Seq::<TsSymSrc>::empty()) =~= ts_out_none());
        assert(fields_view(fields@) =~= fs0 + Seq::<(Seq<char>, Seq<char>, Visibility)>::empty());
        assert(views(pending@) =~= Seq::<Seq<char>>::empty());
    }
    let mut i: usize = 0;
    while i < cs.len()
        invariant
            i <= cs.len(),
            t.wf(),
            all == cs@,
            starts_with(parent_qn@, pkg),
            forall|j: int| 0 <= j < all.len() ==> body < #[trigger] all[j] < t.len(),
            ts_ir_ok(*ir, pkg, path@),
            ts_extends(*old(ir), *ir, ts_syms(class_body_in(*t, all.take(i as int), parent_name@, parent_qn@).0), *t, path@),
            fields_view(fields@) == fs0 + class_body_in(*t, all.take(i as int), parent_name@, parent_qn@).1,
            views(pending@) == class_body_in(*t, all.take(i as int), parent_name@, parent_qn@).2,
        decreases cs.len() - i,
    {
        let c = cs[i];
        assert(all[i as int] == c);
        assert(all.take(i + 1).drop_last() =~= all.take(i as int));
        let ghost prev = class_body_in(*t, all.take(i as int), parent_name@, parent_qn@);
        let ghost next = class_body_in(*t, all.take(i + 1), parent_name@, parent_qn@);
        let ghost before = *ir;
        let ghost fb = fields_view(fields@);
        if kind_is(t, c, "decorator") {
            pending.push(node_text(t, c));
            assert(views(pending@) =~= prev.2.push(t.text(c as int)));
        } else if kind_is(t, c, "method_definition") || kind_is(t, c, "abstract_method_signature") {
            let ghost pv = views(pending@);
            let decorators = crate::parser::rust::take_strings(&mut pending);
            assert(views(pending@) =~= Seq::<Seq<char>>::empty());
            assert(views(decorators@) == prev.2);
            match extract_method(t, c, path, parent_name, parent_qn) {
                Some(sym) => {
                    let mut sym = sym;
                    let ghost a0 = views(sym.attributes@);
                    if kind_is(t, c, "abstract_method_signature") {
                        sym.attributes.push(owned("abstract"));
                    }
                    let ghost a1 = views(sym.attributes@);
                    assert(a1 == (if t.kind(c as int) == "abstract_method_signature"@ {
                        a0.push("abstract"@)
                    } else {
                        a0
                    }));
                    let ghost at1 = sym.attributes@;
                    extend_cloned(&mut sym.attributes, &decorators);
                    assert forall|q: int| 0 <= q < views(sym.attributes@).len() implies views(sym.attributes@)[q] == (a1
                        + prev.2)[q] by {
                        if q < at1.len() {
                            assert(sym.attributes@[q] == at1[q]);
                        } else {
                            assert(sym.attributes@[at1.len() + (q - at1.len())]@ == decorators@[q - at1.len()]@);
                        }
                    }
                    assert(views(sym.attributes@) =~= a1 + prev.2);
                    proof {
                        lemma_dot_extends(parent_qn@, sym.name@, pkg);
                    }
                    let ghost sv = sym;
                    push_ts_symbol(ir, sym, Ghost(pkg), Ghost(path@));
                    proof {
                        let src = TsSymSrc::Method(c as int, parent_name@, parent_qn@, a1 + prev.2);
                        lemma_pushed_ts_symbol(before, *ir, sv, src, *t, path@);
                        lemma_ts_extends_trans(*old(ir), before, *ir, ts_syms(prev.0), ts_syms(seq![src]), *t, path@);
                        assert(ts_out_cat(ts_syms(prev.0), ts_syms(seq![src])) =~= ts_syms(next.0));
                    }
                },
                None => {},
            }
        } else if kind_is(t, c, "public_field_definition") {
            pending.clear();
            assert(views(pending@) =~= Seq::<Seq<char>>::empty());
            match member_field_name(t, c) {
                Some(name) => {
                    let ty = match type_annotation(t, c) {
                        Some(x) => x,
                        None => String::new(),
                    };
                    let vis = member_visibility(t, c);
                    let ghost nv = name@;
                    let ghost tv = ty@;
                    assert(tv == match ts_annotation(*t, c as int, "type"@) {
                        Some(x) => x,
                        None => Seq::<char>::empty(),
                    });
                    fields.push(Field { name, type_str: ty, visibility: vis });
                    assert(next.1 == prev.1.push((nv, tv, vis)));
                    assert(fields_view(fields@) =~= fb.push((nv, tv, vis)));
                    assert(fields_view(fields@) =~= fs0 + next.1);
                },
                None => {},
            }
        }
        i += 1;
    }
    assert(all.take(cs.len() as int) =~= all);
}

/// A class: its supertypes, methods and fields, then its own symbol.
fn extract_class(
    t: &SyntaxTree,
    n: usize,
    path: &str,
    prefix: &str,
    exported: bool,
    outer_decorators: &Vec<String>,
    ir: &mut Ir,
    Ghost(pkg): Ghost<Seq<char>>,
)
    requires
        t.wf(),
        n < t.len(),
        starts_with(prefix@, pkg),
        ts_ir_ok(*old(ir), pkg, path@),
    ensures
        ts_ir_ok(*final(ir), pkg, path@),
        ts_extends(*old(ir), *final(ir), class_out(*t, n as int, prefix@, exported, views(outer_decorators@)), *t, path@),
{
    let ghost ov = views(outer_decorators@);
    let name = match get_name(t, n) {
        Some(x) => x,
        None => {
            proof {
                lemma_ts_extends_refl(*ir, *t, path@);
            }
            return;
        },
    };
    let is_abstract = kind_is(t, n, "abstract_class_declaration");
    let qn = qualify(prefix, name.as_str());
    proof {
        lemma_dot_extends(prefix@, name@, pkg);
    }
    let mut attributes: Vec<String> = Vec::new();
    let mut k: usize = 0;
    while k < outer_decorators.len()
        invariant
            k <= outer_decorators.len(),
            ov == views(outer_decorators@),
            views(attributes@) == ov.take(k as int),
        decreases outer_decorators.len() - k,
    {
        let ghost b = views(attributes@);
        let d = outer_decorators[k].clone();
        assert(d@ == ov[k as int]);
        attributes.push(d);
        assert(views(attributes@) =~= b.push(ov[k as int]));
        assert(ov.take(k + 1) =~= ov.take(k as int).push(ov[k as int]));
        k += 1;
    }
    assert(ov.take(outer_decorators.len() as int) =~= ov);
    let own = extract_decorators(t, n);
    let ghost ownv = views(own@);
    let mut j: usize = 0;
    while j < own.len()
        invariant
            j <= own.len(),
            ownv == views(own@),
            views(attributes@) == ov + ownv.take(j as int),
        decreases own.len() - j,
    {
        let ghost b = views(attributes@);
        let d = own[j].clone();
        assert(d@ == ownv[j as int]);
        attributes.push(d);
        assert(views(attributes@) =~= b.push(ownv[j as int]));
        assert(ov + ownv.take(j + 1) =~= (ov + ownv.take(j as int)).push(ownv[j as int]));
        j += 1;
    }
    assert(ownv.take(own.len() as int) =~= ownv);
    if is_abstract {
        attributes.push(owned("abstract"));
    }
    assert(views(attributes@) =~= class_attrs(*t, n as int, ov));
    extract_heritage_deps(t, n, path, qn.as_str(), ir, Ghost(pkg));
    let ghost after_deps = *ir;
    let mut fields: Vec<Field> = Vec::new();
    let ghost members = class_members(*t, n as int, name@, qn@);
    match find_child_by_kind(t, n, "class_body") {
        Some(body) => {
            extract_class_body(t, body, path, name.as_str(), qn.as_str(), &mut fields, ir, Ghost(pkg));
            assert(fields_view(fields@) =~= members.1);
        },
        None => {
            proof {
                lemma_ts_extends_refl(*ir, *t, path@);
            }
            assert(fields_view(fields@) =~= members.1);
            assert(ts_syms(members.0) =~= ts_out_none());
        },
    }
    let ghost after_body = *ir;
    let sym = Symbol {
        name,
        qualified_name: qn,
        kind: owned("class"),
        loc: loc_of(t, n, path),
        visibility: vis_of(exported),
        parent: None,
        fields,
        params: Vec::new(),
        return_type: None,
        signature: None,
        attributes,
    };
    let ghost sv = sym;
    push_ts_symbol(ir, sym, Ghost(pkg), Ghost(path@));
    proof {
        let src = TsSymSrc::Class(n as int, prefix@, exported, class_attrs(*t, n as int, ov));
        lemma_pushed_ts_symbol(after_body, *ir, sv, src, *t, path@);
        let h = ts_deps(heritage_deps(*t, n as int, qn@));
        lemma_ts_extends_trans(*old(ir), after_deps, after_body, h, ts_syms(members.0), *t, path@);
        lemma_ts_extends_trans(*old(ir), after_body, *ir, ts_out_cat(h, ts_syms(members.0)), ts_syms(seq![src]), *t, path@);
        assert(ts_out_cat(ts_out_cat(h, ts_syms(members.0)), ts_syms(seq![src])) =~= class_out(
            *t,
            n as int,
            prefix@,
            exported,
            ov,
        ));
    }
}

/// An interface: its supertypes, method signatures and property fields,
/// then its own symbol.
fn extract_interface(
    t: &SyntaxTree,
    n: usize,
    path: &str,
    prefix: &str,
    exported: bool,
    ir: &mut Ir,
    Ghost(pkg): Ghost<Seq<char>>,
)
    requires
        t.wf(),
        n < t.len(),
        starts_with(prefix@, pkg),
        ts_ir_ok(*old(ir), pkg, path@),
    ensures
        ts_ir_ok(*final(ir), pkg, path@),
        ts_extends(*old(ir), *final(ir), interface_out(*t, n as int, prefix@, exported), *t, path@),
{
    let name = match get_name(t, n) {
        Some(x) => x,
        None => {
            proof {
                lemma_ts_extends_refl(*ir, *t, path@);
            }
            return;
        },
    };
    let qn = qualify(prefix, name.as_str());
    proof {
        lemma_dot_extends(prefix@, name@, pkg);
    }
    extract_heritage_deps(t, n, path, qn.as_str(), ir, Ghost(pkg));
    let ghost after_deps = *ir;
    let mut fields: Vec<Field> = Vec::new();
    let ghost members = interface_members(*t, n as int, name@, qn@);
    let body = match find_child_by_kind(t, n, "interface_body") {
        Some(b) => Some(b),
        None => find_child_by_kind(t, n, "object_type"),
    };
    assert(body == interface_body(*t, n as int));
    match body {
        Some(b) => {
            let cs = &t.nodes[b].children;
            let ghost all = t.children(b as int);
            proof {
                lemma_children_after(*t, b as int);
                lemma_ts_extends_refl(*ir, *t, path@);
                assert(all.take(0) =~= Seq::<usize>::empty());
                assert(ts_syms(Seq::<TsSymSrc>::empty()) =~= ts_out_none());
                assert(fields_view(fields@) =~= Seq::<(Seq<char>, Seq<char>, Visibility)>::empty());
            }
            let mut i: usize = 0;
            while i < cs.len()
                invariant
                    i <= cs.len(),
                    t.wf(),
                    all == cs@,
                    starts_with(qn@, pkg),
                    forall|j: int| 0 <= j < all.len() ==> b < #[trigger] all[j] < t.len(),
                    ts_ir_ok(*ir, pkg, path@),
                    ts_extends(after_deps, *ir, ts_syms(interface_body_in(*t, all.take(i as int), name@, qn@).0), *t, path@),
                    fields_view(fields@) == interface_body_in(*t, all.take(i as int), name@, qn@).1,
                decreases cs.len() - i,
            {
                let c = cs[i];
                assert(all[i as int] == c);
                assert(all.take(i + 1).drop_last() =~= all.take(i as int));
                let ghost prev = interface_body_in(*t, all.take(i as int), name@, qn@);
                let ghost next = interface_body_in(*t, all.take(i + 1), name@, qn@);
                let ghost before = *ir;
                if kind_is(t, c, "method_signature") {
                    match extract_method_signature(t, c, path, name.as_str(), qn.as_str()) {
                        Some(sym) => {
                            proof {
                                lemma_dot_extends(qn@, sym.name@, pkg);
                            }
                            let ghost sv = sym;
                            push_ts_symbol(ir, sym, Ghost(pkg), Ghost(path@));
                            proof {
                                let src = TsSymSrc::MethodSig(c as int, name@, qn@);
                                lemma_pushed_ts_symbol(before, *ir, sv, src, *t, path@);
                                lemma_ts_extends_trans(after_deps, before, *ir, ts_syms(prev.0), ts_syms(seq![src]), *t, path@);
                                assert(ts_out_cat(ts_syms(prev.0), ts_syms(seq![src])) =~= ts_syms(next.0));
                            }
                        },
                        None => {},
                    }
                } else if kind_is(t, c, "property_signature") {
                    match member_field_name(t, c) {
                        Some(fname) => {
                            let ty = match type_annotation(t, c) {
                                Some(x) => x,
                                None => String::new(),
                            };
                            fields.push(Field { name: fname, type_str: ty, visibility: Visibility::Public });
                            assert(fields_view(fields@) =~= next.1);
                        },
                        None => {},
                    }
                }
                i += 1;
            }
            assert(all.take(cs.len() as int) =~= all);
        },
        None => {
            proof {
                lemma_ts_extends_refl(*ir, *t, path@);
            }
            assert(fields_view(fields@) =~= members.1);
            assert(ts_syms(members.0) =~= ts_out_none());
        },
    }
    let ghost after_body = *ir;
    let attributes: Vec<String> = Vec::new();
    assert(views(attributes@) =~= Seq::<Seq<char>>::empty());
    let sym = Symbol {
        name,
        qualified_name: qn,
        kind: owned("interface"),
        loc: loc_of(t, n, path),
        visibility: vis_of(exported),
        parent: None,
        fields,
        params: Vec::new(),
        return_type: None,
        signature: None,
        attributes,
    };
    let ghost sv = sym;
    push_ts_symbol(ir, sym, Ghost(pkg), Ghost(path@));
    proof {
        let src = TsSymSrc::Interface(n as int, prefix@, exported);
        lemma_pushed_ts_symbol(after_body, *ir, sv, src, *t, path@);
        let h = ts_deps(heritage_deps(*t, n as int, qn@));
        lemma_ts_extends_trans(*old(ir), after_deps, after_body, h, ts_syms(members.0), *t, path@);
        lemma_ts_extends_trans(*old(ir), after_body, *ir, ts_out_cat(h, ts_syms(members.0)), ts_syms(seq![src]), *t, path@);
        assert(ts_out_cat(ts_out_cat(h, ts_syms(members.0)), ts_syms(seq![src])) =~= interface_out(
            *t,
            n as int,
            prefix@,
            exported,
        ));
    }
}

/// What a named declaration `n` of kind `k` yields besides its name: no
/// parent, parameters or return type.
pub open spec fn is_ts_decl_symbol(
    s: Symbol,
    t: SyntaxTree,
    n: int,
    path: Seq<char>,
    prefix: Seq<char>,
    exported: bool,
    k: Seq<char>,
    sig: Option<Seq<char>>,
    fields: Seq<(Seq<char>, Seq<char>, Visibility)>,
    attrs: Seq<Seq<char>>,
) -> bool {
    &&& s.qualified_name@ == crate::parser::go::qualified_spec(prefix, s.name@)
    &&& s.kind@ == k
    &&& is_loc_of(s.loc, t, n, path)
    &&& s.visibility == (if exported { Visibility::Public } else { Visibility::Private })
    &&& s.parent is None
    &&& fields_view(s.fields@) == fields
    &&& s.params@.len() == 0
    &&& s.return_type is None
    &&& opt_seq(s.signature) == sig
    &&& views(s.attributes@) == attrs
}

/// The members among the entries `cs` of an enum body, as public fields.
pub open spec fn enum_fields_in(t: SyntaxTree, cs: Seq<usize>) -> Seq<(Seq<char>, Seq<char>, Visibility)>
    decreases cs.len(),
{
    if cs.len() == 0 {
        seq![]
    } else {
        let c = cs.last() as int;
        enum_fields_in(t, cs.drop_last()) + if t.kind(c) == "enum_assignment"@ {
            if t.children(c).len() > 0 {
                seq![(t.text(t.children(c)[0] as int), Seq::<char>::empty(), Visibility::Public)]
            } else {
                seq![]
            }
        } else if t.kind(c) == "property_identifier"@ {
            seq![(t.text(c), Seq::<char>::empty(), Visibility::Public)]
        } else {
            seq![]
        }
    }
}

/// The members of the enum `n`.
pub open spec fn enum_fields(t: SyntaxTree, n: int) -> Seq<(Seq<char>, Seq<char>, Visibility)> {
    match child_of_kind(t, n, "enum_body"@) {
        Some(b) => enum_fields_in(t, t.children(b as int)),
        None => seq![],
    }
}

/// `const` for a `const enum`.
pub open spec fn enum_attrs(t: SyntaxTree, n: int) -> Seq<Seq<char>> {
    if starts_with(t.text(n), "const "@) {
        seq!["const"@]
    } else {
        seq![]
    }
}

/// An enum with its members as fields (`const` enums marked so).
fn extract_enum(t: &SyntaxTree, n: usize, path: &str, prefix: &str, exported: bool) -> (r: Option<Symbol>)
    requires
        t.wf(),
        n < t.len(),
    ensures
        r matches Some(s) ==> s.loc.file@ == path@ && s.kind@ == "enum"@ && s.qualified_name@
            == crate::parser::go::qualified_spec(prefix@, s.name@),
        r is Some <==> field_text(*t, n as int, "name"@) is Some,
        r matches Some(s) ==> field_text(*t, n as int, "name"@) == Some(s.name@) && is_ts_decl_symbol(
            s,
            *t,
            n as int,
            path@,
            prefix@,
            exported,
            "enum"@,
            None,
            enum_fields(*t, n as int),
            enum_attrs(*t, n as int),
        ),
{
    let name = match get_name(t, n) {
        Some(x) => x,
        None => {
            return None;
        },
    };
    let qn = qualify(prefix, name.as_str());
    let mut attributes: Vec<String> = Vec::new();
    if str_starts_with(t.nodes[n].text.as_str(), "const ") {
        attributes.push(owned("const"));
    }
    assert(views(attributes@) =~= enum_attrs(*t, n as int));
    let mut fields: Vec<Field> = Vec::new();
    assert(fields_view(fields@) =~= Seq::<(Seq<char>, Seq<char>, Visibility)>::empty());
    match find_child_by_kind(t, n, "enum_body") {
        Some(body) => {
            let cs = &t.nodes[body].children;
            let ghost all = t.children(body as int);
            proof {
                lemma_children_after(*t, body as int);
                assert(all.take(0) =~= Seq::<usize>::empty());
            }
            let mut i: usize = 0;
            while i < cs.len()
                invariant
                    i <= cs.len(),
                    t.wf(),
                    all == cs@,
                    forall|j: int| 0 <= j < all.len() ==> body < #[trigger] all[j] < t.len(),
                    fields_view(fields@) == enum_fields_in(*t, all.take(i as int)),
                decreases cs.len() - i,
            {
                let c = cs[i];
                assert(all[i as int] == c);
                assert(all.take(i + 1).drop_last() =~= all.take(i as int));
                let member: Option<String> = if kind_is(t, c, "enum_assignment") {
                    if t.nodes[c].children.len() > 0 {
                        let first = t.nodes[c].children[0];
                        proof {
                            lemma_children_after(*t, c as int);
                            assert(t.nodes@[c as int].children@[0] == first);
                        }
                        Some(node_text(t, first))
                    } else {
                        None
                    }
                } else if kind_is(t, c, "property_identifier") {
                    Some(node_text(t, c))
                } else {
                    None
                };
                match member {
                    Some(m) => fields.push(Field { name: m, type_str: String::new(), visibility: Visibility::Public }),
                    None => {},
                }
                assert(fields_view(fields@) =~= enum_fields_in(*t, all.take(i + 1)));
                i += 1;
            }
            assert(all.take(cs.len() as int) =~= all);
        },
        None => {},
    }
    Some(Symbol {
        name,
        qualified_name: qn,
        kind: owned("enum"),
        loc: loc_of(t, n, path),
        visibility: vis_of(exported),
        parent: None,
        fields,
        params: Vec::new(),
        return_type: None,
        signature: None,
        attributes,
    })
}

/// A type alias, with its first line as signature.
fn extract_type_alias(t: &SyntaxTree, n: usize, path: &str, prefix: &str, exported: bool) -> (r: Option<Symbol>)
    requires
        t.wf(),
        n < t.len(),
    ensures
        r matches Some(s) ==> s.loc.file@ == path@ && s.kind@ == "type"@ && s.qualified_name@
            == crate::parser::go::qualified_spec(prefix@, s.name@),
        r is Some <==> field_text(*t, n as int, "name"@) is Some,
        r matches Some(s) ==> field_text(*t, n as int, "name"@) == Some(s.name@) && is_ts_decl_symbol(
            s,
            *t,
            n as int,
            path@,
            prefix@,
            exported,
            "type"@,
            Some(first_line_spec(t.text(n as int))),
            seq![],
            seq![],
        ),
{
    let name = match get_name(t, n) {
        Some(x) => x,
        None => {
            return None;
        },
    };
    let qn = qualify(prefix, name.as_str());
    let signature = first_line(t.nodes[n].text.as_str());
    let fields: Vec<Field> = Vec::new();
    let attributes: Vec<String> = Vec::new();
    assert(fields_view(fields@) =~= Seq::<(Seq<char>, Seq<char>, Visibility)>::empty());
    assert(views(attributes@) =~= Seq::<Seq<char>>::empty());
    Some(Symbol {
        name,
        qualified_name: qn,
        kind: owned("type"),
        loc: loc_of(t, n, path),
        visibility: vis_of(exported),
        parent: None,
        fields,
        params: Vec::new(),
        return_type: None,
        signature: Some(signature),
        attributes,
    })
}

/// Give the direct members of namespace `qn` that have no parent the
/// parent `name`.
fn adopt_members(ir: &mut Ir, qn: &str, name: &str, Ghost(pkg): Ghost<Seq<char>>, Ghost(path): Ghost<Seq<char>>)
    requires
        ts_ir_ok(*old(ir), pkg, path),
        qn@ == name@ || ends_with(qn@, "."@ + name@),
    ensures
        ts_ir_ok(*final(ir), pkg, path),
        final(ir).symbols@.len() == old(ir).symbols@.len(),
        final(ir).dependencies@ == old(ir).dependencies@,
        forall|i: int|
            0 <= i < old(ir).symbols@.len() ==> if adoptable(old(ir).symbols@[i], qn@) {
                &&& same_but_parent(#[trigger] final(ir).symbols@[i], old(ir).symbols@[i])
                &&& final(ir).symbols@[i].parent matches Some(p) && p@ == name@
            } else {
                final(ir).symbols@[i] == old(ir).symbols@[i]
            },
{
    let mut prefix_dot = owned(qn);
    push_str(&mut prefix_dot, ".");
    let n = ir.symbols.len();
    let mut i: usize = 0;
    while i < n
        invariant
            i <= n,
            n == ir.symbols@.len(),
            n == old(ir).symbols@.len(),
            prefix_dot@ == qn@ + "."@,
            qn@ == name@ || ends_with(qn@, "."@ + name@),
            ir.dependencies@ == old(ir).dependencies@,
            ts_ir_ok(*ir, pkg, path),
            forall|j: int| i <= j < n ==> #[trigger] ir.symbols@[j] == old(ir).symbols@[j],
            forall|j: int|
                0 <= j < i ==> if adoptable(old(ir).symbols@[j], qn@) {
                    &&& same_but_parent(#[trigger] ir.symbols@[j], old(ir).symbols@[j])
                    &&& ir.symbols@[j].parent matches Some(p) && p@ == name@
                } else {
                    ir.symbols@[j] == old(ir).symbols@[j]
                },
        decreases n - i,
    {
        assert(ir.symbols@[i as int] == old(ir).symbols@[i as int]);
        let adopt = if ir.symbols[i].parent.is_none() && str_starts_with(ir.symbols[i].qualified_name.as_str(), prefix_dot.as_str())
            && !str_eq(ir.symbols[i].qualified_name.as_str(), qn) {
            let v = chars_of(ir.symbols[i].qualified_name.as_str());
            let pd = chars_of(prefix_dot.as_str());
            let mut dotted = false;
            let mut k = pd.len();
            while k < v.len()
                invariant
                    pd.len() <= k <= v.len(),
                    dotted == exists|q: int| pd.len() <= q < k && v@[q] == '.',
                decreases v.len() - k,
            {
                if v[k] == '.' {
                    dotted = true;
                }
                k += 1;
            }
            !dotted
        } else {
            false
        };
        assert(adopt == adoptable(old(ir).symbols@[i as int], qn@));
        if adopt {
            let ghost before = *ir;
            proof {
                lemma_adoptable_scope(old(ir).symbols@[i as int], qn@, name@);
            }
            ir.symbols[i].parent = Some(owned(name));
            proof {
                assert forall|j: int| 0 <= j < ir.symbols@.len() implies ts_symbol_ok(#[trigger] ir.symbols@[j], pkg, path) by {
                    assert(ts_symbol_ok(before.symbols@[j], pkg, path));
                }
                assert forall|j: int| 0 <= j < ir.symbols@.len() && j != i implies #[trigger] ir.symbols@[j] == before.symbols@[j] by {
                }
            }
        }
        i += 1;
    }
}

proof fn lemma_rfind_last_dot(q: Seq<char>, start: int)
    requires
        0 <= start < q.len(),
        q[start] == '.',
        forall|k: int| start < k < q.len() ==> q[k] != '.',
    ensures
        rfind_char(q, '.') == Some(start),
    decreases q.len(),
{
    if q.len() - 1 > start {
        assert(q.last() != '.');
        let d = q.drop_last();
        assert forall|k: int| start < k < d.len() implies d[k] != '.' by {
            assert(d[k] == q[k]);
        }
        lemma_rfind_last_dot(d, start);
    }
}

/// A direct member of the namespace qualified `qn` is qualified by `qn`.
proof fn lemma_adoptable_scope(s: Symbol, qn: Seq<char>, name: Seq<char>)
    requires
        adoptable(s, qn),
        qn == name || ends_with(qn, "."@ + name),
    ensures
        named_scope(s.qualified_name@, name),
{
    reveal_strlit(".");
    let q = s.qualified_name@;
    let pd = qn + "."@;
    assert(pd.len() == qn.len() + 1);
    assert(q.subrange(0, pd.len() as int) == pd);
    assert(q[qn.len() as int] == pd[qn.len() as int]);
    lemma_rfind_last_dot(q, qn.len() as int);
    assert(q.take(qn.len() as int) =~= qn) by {
        assert forall|k: int| 0 <= k < qn.len() implies q.take(qn.len() as int)[k] == qn[k] by {
            assert(q[k] == pd[k]);
        }
    }
}

/// A namespace: its own symbol, then its declarations under its name.
fn extract_namespace(
    t: &SyntaxTree,
    n: usize,
    path: &str,
    prefix: &str,
    exported: bool,
    ir: &mut Ir,
    Ghost(pkg): Ghost<Seq<char>>,
)
    requires
        t.wf(),
        n < t.len(),
        starts_with(prefix@, pkg),
        pkg.len() > 0 ==> prefix@.len() > 0,
        ts_ir_ok(*old(ir), pkg, path@),
    ensures
        ts_ir_ok(*final(ir), pkg, path@),
        ts_extends_loose(*old(ir), *final(ir), namespace_out(*t, n as int, prefix@, exported), *t, path@),
    decreases t.len() - n, 0int,
{
    let name = match get_name(t, n) {
        Some(x) => x,
        None => match find_child_by_kind(t, n, "identifier") {
            Some(c) => node_text(t, c),
            None => {
                proof {
                    lemma_ts_extends_refl(*ir, *t, path@);
                    lemma_ts_loose_of_exact(*ir, *ir, ts_out_none(), *t, path@);
                }
                return;
            },
        },
    };
    assert(ns_name(*t, n as int) == Some(name@));
    let qn = qualify(prefix, name.as_str());
    proof {
        lemma_dot_extends(prefix@, name@, pkg);
    }
    let fields: Vec<Field> = Vec::new();
    let attributes: Vec<String> = Vec::new();
    assert(fields_view(fields@) =~= Seq::<(Seq<char>, Seq<char>, Visibility)>::empty());
    assert(views(attributes@) =~= Seq::<Seq<char>>::empty());
    let sym = Symbol {
        name: name.clone(),
        qualified_name: qn.clone(),
        kind: owned("namespace"),
        loc: loc_of(t, n, path),
        visibility: vis_of(exported),
        parent: None,
        fields,
        params: Vec::new(),
        return_type: None,
        signature: None,
        attributes,
    };
    let ghost sv = sym;
    let ghost me = ts_syms(seq![TsSymSrc::Namespace(n as int, prefix@, exported)]);
    push_ts_symbol(ir, sym, Ghost(pkg), Ghost(path@));
    proof {
        lemma_pushed_ts_symbol(*old(ir), *ir, sv, TsSymSrc::Namespace(n as int, prefix@, exported), *t, path@);
        lemma_ts_loose_of_exact(*old(ir), *ir, me, *t, path@);
    }
    let ghost mid = *ir;
    match find_child_by_kind(t, n, "statement_block") {
        Some(body) => {
            proof {
                if pkg.len() > 0 {
                    assert(qn@.len() > 0);
                }
            }
            extract_items(t, body, path, qn.as_str(), exported, None, ir, Ghost(pkg));
            let ghost after = *ir;
            proof {
                if prefix@.len() > 0 {
                    assert((prefix@ + "."@ + name@).subrange(
                        (prefix@ + "."@ + name@).len() - ("."@ + name@).len(),
                        (prefix@ + "."@ + name@).len() as int,
                    ) =~= "."@ + name@);
                }
            }
            adopt_members(ir, qn.as_str(), name.as_str(), Ghost(pkg), Ghost(path@));
            proof {
                let body_out = items_in(*t, body as int, t.children(body as int), qn@, exported, None).0;
                assert(ts_extends_loose(after, *ir, ts_out_none(), *t, path@)) by {
                    assert forall|i: int| 0 <= i < after.symbols@.len() implies same_but_parent(#[trigger] ir.symbols@[i], after.symbols@[i]) by {
                        if !adoptable(after.symbols@[i], qn@) {
                            assert(ir.symbols@[i] == after.symbols@[i]);
                        }
                    }
                }
                lemma_ts_loose_trans(mid, after, *ir, body_out, ts_out_none(), *t, path@);
                assert(ts_out_cat(body_out, ts_out_none()) =~= body_out);
                lemma_ts_loose_trans(*old(ir), mid, *ir, me, body_out, *t, path@);
            }
        },
        None => {},
    }
}

/// The declarations among the children of `n`, with each run of
/// decorators attached to the declaration that follows.
fn extract_items(
    t: &SyntaxTree,
    n: usize,
    path: &str,
    prefix: &str,
    exported: bool,
    parent: Option<&str>,
    ir: &mut Ir,
    Ghost(pkg): Ghost<Seq<char>>,
)
    requires
        t.wf(),
        n < t.len(),
        starts_with(prefix@, pkg),
        pkg.len() > 0 ==> prefix@.len() > 0,
        ts_ir_ok(*old(ir), pkg, path@),
    ensures
        ts_ir_ok(*final(ir), pkg, path@),
        ts_extends_loose(
            *old(ir),
            *final(ir),
            items_in(*t, n as int, t.children(n as int), prefix@, exported, parent_seq(parent)).0,
            *t,
            path@,
        ),
    decreases t.len() - n, 2int,
{
    let ghost pv = parent_seq(parent);
    let mut pending: Vec<String> = Vec::new();
    let cs = &t.nodes[n].children;
    let ghost all = t.children(n as int);
    proof {
        lemma_children_after(*t, n as int);
        lemma_ts_extends_refl(*ir, *t, path@);
        lemma_ts_loose_of_exact(*ir, *ir, ts_out_none(), *t, path@);
        assert(all.take(0) =~= Seq::<usize>::empty());
        assert(views(pending@) =~= Seq::<Seq<char>>::empty());
    }
    let mut i: usize = 0;
    while i < cs.len()
        invariant
            i <= cs.len(),
            t.wf(),
            n < t.len(),
            all == cs@,
            pv == parent_seq(parent),
            starts_with(prefix@, pkg),
            pkg.len() > 0 ==> prefix@.len() > 0,
            forall|j: int| 0 <= j < all.len() ==> n < #[trigger] all[j] < t.len(),
            ts_ir_ok(*ir, pkg, path@),
            ts_extends_loose(*old(ir), *ir, items_in(*t, n as int, all.take(i as int), prefix@, exported, pv).0, *t, path@),
            views(pending@) == items_in(*t, n as int, all.take(i as int), prefix@, exported, pv).1,
        decreases cs.len() - i,
    {
        let c = cs[i];
        assert(all[i as int] == c);
        assert(all.take(i + 1).drop_last() =~= all.take(i as int));
        let ghost prev = items_in(*t, n as int, all.take(i as int), prefix@, exported, pv);
        let ghost next = items_in(*t, n as int, all.take(i + 1), prefix@, exported, pv);
        let ghost before = *ir;
        let ghost p = views(pending@);
        let ghost piece: TsOut = ts_out_none();
        if kind_is(t, c, "decorator") {
            pending.push(node_text(t, c));
            assert(views(pending@) =~= p.push(t.text(c as int)));
            proof {
                lemma_ts_extends_refl(*ir, *t, path@);
                lemma_ts_loose_of_exact(*ir, *ir, ts_out_none(), *t, path@);
                lemma_ts_loose_trans(*old(ir), before, *ir, prev.0, ts_out_none(), *t, path@);
                assert(ts_out_cat(prev.0, ts_out_none()) =~= next.0);
            }
        } else if kind_is(t, c, "import_statement") {
            pending.clear();
            match extract_import(t, c, path, prefix) {
                Some(d) => {
                    let ghost dv = d;
                    push_ts_dep(ir, d, Ghost(pkg), Ghost(path@));
                    proof {
                        lemma_pushed_ts_dep(before, *ir, dv, TsDepSrc::Import(c as int, prefix@), *t, path@);
                        lemma_ts_loose_of_exact(before, *ir, ts_deps(seq![TsDepSrc::Import(c as int, prefix@)]), *t, path@);
                        lemma_ts_loose_trans(*old(ir), before, *ir, prev.0, ts_deps(seq![TsDepSrc::Import(c as int, prefix@)]), *t, path@);
                    }
                },
                None => {
                    proof {
                        lemma_ts_extends_refl(*ir, *t, path@);
                        lemma_ts_loose_of_exact(*ir, *ir, ts_out_none(), *t, path@);
                        lemma_ts_loose_trans(*old(ir), before, *ir, prev.0, ts_out_none(), *t, path@);
                    }
                },
            }
            assert(views(pending@) =~= Seq::<Seq<char>>::empty());
        } else if kind_is(t, c, "export_statement") {
            let mut export_decorators = crate::parser::rust::take_strings(&mut pending);
            assert(views(export_decorators@) == p);
            let inner = &t.nodes[c].children;
            let ghost ins = t.children(c as int);
            proof {
                lemma_children_after(*t, c as int);
                assert(ins.take(0) =~= Seq::<usize>::empty());
                assert(views(export_decorators@) =~= p + texts_of_kind(*t, ins.take(0), "decorator"@));
            }
            let mut j: usize = 0;
            while j < inner.len()
                invariant
                    j <= inner.len(),
                    t.wf(),
                    c < t.len(),
                    ins == inner@,
                    forall|k: int| 0 <= k < ins.len() ==> c < #[trigger] ins[k] < t.len(),
                    views(export_decorators@) == p + texts_of_kind(*t, ins.take(j as int), "decorator"@),
                decreases inner.len() - j,
            {
                let e = inner[j];
                assert(ins[j as int] == e);
                assert(ins.take(j + 1).drop_last() =~= ins.take(j as int));
                assert(ins.take(j + 1).last() == e);
                let ghost b = views(export_decorators@);
                if kind_is(t, e, "decorator") {
                    export_decorators.push(node_text(t, e));
                    assert(views(export_decorators@) =~= b.push(t.text(e as int)));
                }
                assert(views(export_decorators@) =~= p + texts_of_kind(*t, ins.take(j + 1), "decorator"@));
                j += 1;
            }
            assert(ins.take(inner.len() as int) =~= ins);
            extract_declarations(t, c, path, prefix, true, parent, &export_decorators, ir, Ghost(pkg));
            proof {
                lemma_ts_loose_trans(
                    *old(ir),
                    before,
                    *ir,
                    prev.0,
                    decls_in(*t, c as int, ins, prefix@, true, pv, p + texts_of_kind(*t, ins, "decorator"@)),
                    *t,
                    path@,
                );
            }
            assert(views(pending@) =~= Seq::<Seq<char>>::empty());
        } else if kind_is(t, c, "function_declaration") {
            let decorators = crate::parser::rust::take_strings(&mut pending);
            push_function(t, c, path, prefix, exported, parent, &decorators, ir, Ghost(pkg));
            proof {
                let o = func_out(*t, c as int, prefix@, exported, pv, p);
                lemma_ts_loose_of_exact(before, *ir, o, *t, path@);
                lemma_ts_loose_trans(*old(ir), before, *ir, prev.0, o, *t, path@);
            }
            assert(views(pending@) =~= Seq::<Seq<char>>::empty());
        } else if kind_is(t, c, "lexical_declaration") {
            pending.clear();
            extract_lexical_declaration(t, c, path, prefix, exported, parent, ir, Ghost(pkg));
            proof {
                let o = ts_syms(lexical_in(*t, t.children(c as int), prefix@, exported, pv));
                lemma_ts_loose_of_exact(before, *ir, o, *t, path@);
                lemma_ts_loose_trans(*old(ir), before, *ir, prev.0, o, *t, path@);
            }
            assert(views(pending@) =~= Seq::<Seq<char>>::empty());
        } else if kind_is(t, c, "class_declaration") || kind_is(t, c, "abstract_class_declaration") {
            let decorators = crate::parser::rust::take_strings(&mut pending);
            extract_class(t, c, path, prefix, exported, &decorators, ir, Ghost(pkg));
            proof {
                let o = class_out(*t, c as int, prefix@, exported, p);
                lemma_ts_loose_of_exact(before, *ir, o, *t, path@);
                lemma_ts_loose_trans(*old(ir), before, *ir, prev.0, o, *t, path@);
            }
            assert(views(pending@) =~= Seq::<Seq<char>>::empty());
        } else if kind_is(t, c, "interface_declaration") {
            pending.clear();
            extract_interface(t, c, path, prefix, exported, ir, Ghost(pkg));
            proof {
                let o = interface_out(*t, c as int, prefix@, exported);
                lemma_ts_loose_of_exact(before, *ir, o, *t, path@);
                lemma_ts_loose_trans(*old(ir), before, *ir, prev.0, o, *t, path@);
            }
            assert(views(pending@) =~= Seq::<Seq<char>>::empty());
        } else if kind_is(t, c, "enum_declaration") {
            pending.clear();
            let s = extract_enum(t, c, path, prefix, exported);
            push_named(ir, s, prefix, Ghost(pkg), Ghost(path@));
            proof {
                let o = named_out(*t, c as int, TsSymSrc::Enum(c as int, prefix@, exported));
                lemma_named_pushed(before, *ir, s, TsSymSrc::Enum(c as int, prefix@, exported), *t, c as int, path@);
                lemma_ts_loose_of_exact(before, *ir, o, *t, path@);
                lemma_ts_loose_trans(*old(ir), before, *ir, prev.0, o, *t, path@);
            }
            assert(views(pending@) =~= Seq::<Seq<char>>::empty());
        } else if kind_is(t, c, "type_alias_declaration") {
            pending.clear();
            let s = extract_type_alias(t, c, path, prefix, exported);
            push_named(ir, s, prefix, Ghost(pkg), Ghost(path@));
            proof {
                let o = named_out(*t, c as int, TsSymSrc::Alias(c as int, prefix@, exported));
                lemma_named_pushed(before, *ir, s, TsSymSrc::Alias(c as int, prefix@, exported), *t, c as int, path@);
                lemma_ts_loose_of_exact(before, *ir, o, *t, path@);
                lemma_ts_loose_trans(*old(ir), before, *ir, prev.0, o, *t, path@);
            }
            assert(views(pending@) =~= Seq::<Seq<char>>::empty());
        } else if kind_is(t, c, "internal_module") {
            pending.clear();
            extract_namespace(t, c, path, prefix, exported, ir, Ghost(pkg));
            proof {
                lemma_ts_loose_trans(*old(ir), before, *ir, prev.0, namespace_out(*t, c as int, prefix@, exported), *t, path@);
            }
            assert(views(pending@) =~= Seq::<Seq<char>>::empty());
        } else {
            proof {
                lemma_ts_extends_refl(*ir, *t, path@);
                lemma_ts_loose_of_exact(*ir, *ir, ts_out_none(), *t, path@);
                lemma_ts_loose_trans(*old(ir), before, *ir, prev.0, ts_out_none(), *t, path@);
                assert(ts_out_cat(prev.0, ts_out_none()) =~= next.0);
            }
        }
        assert(ts_extends_loose(*old(ir), *ir, next.0, *t, path@));
        i += 1;
    }
    assert(all.take(cs.len() as int) =~= all);
}

/// A pushed enum or type alias extends the IR by what its declaration yields.
proof fn lemma_named_pushed(a: Ir, b: Ir, s: Option<Symbol>, src: TsSymSrc, t: SyntaxTree, c: int, path: Seq<char>)
    requires
        b.symbols@ == match s {
            Some(x) => a.symbols@.push(x),
            None => a.symbols@,
        },
        b.dependencies@ == a.dependencies@,
        s is Some <==> field_text(t, c, "name"@) is Some,
        s matches Some(x) ==> ts_sym_from(x, src, t, path),
    ensures
        ts_extends(a, b, named_out(t, c, src), t, path),
{
    match s {
        Some(x) => {
            lemma_pushed_ts_symbol(a, b, x, src, t, path);
        },
        None => {
            assert(b.symbols@ =~= a.symbols@);
            lemma_ts_extends_refl(a, t, path);
        },
    }
}

/// Push an enum or type alias named under `prefix`.
fn push_named(ir: &mut Ir, s: Option<Symbol>, prefix: &str, Ghost(pkg): Ghost<Seq<char>>, Ghost(path): Ghost<Seq<char>>)
    requires
        ts_ir_ok(*old(ir), pkg, path),
        starts_with(prefix@, pkg),
        s matches Some(x) ==> x.loc.file@ == path && (x.kind@ == "enum"@ || x.kind@ == "type"@) && x.qualified_name@
            == crate::parser::go::qualified_spec(prefix@, x.name@),
    ensures
        ts_ir_ok(*final(ir), pkg, path),
        final(ir).symbols@ == match s {
            Some(x) => old(ir).symbols@.push(x),
            None => old(ir).symbols@,
        },
        final(ir).dependencies@ == old(ir).dependencies@,
{
    match s {
        Some(x) => {
            proof {
                lemma_dot_extends(prefix@, x.name@, pkg);
            }
            push_ts_symbol(ir, x, Ghost(pkg), Ghost(path));
        },
        None => {},
    }
}

/// Push a function declaration with decorators appended to its attributes.
fn push_function(
    t: &SyntaxTree,
    c: usize,
    path: &str,
    prefix: &str,
    exported: bool,
    parent: Option<&str>,
    decorators: &Vec<String>,
    ir: &mut Ir,
    Ghost(pkg): Ghost<Seq<char>>,
)
    requires
        t.wf(),
        c < t.len(),
        starts_with(prefix@, pkg),
        pkg.len() > 0 ==> prefix@.len() > 0,
        ts_ir_ok(*old(ir), pkg, path@),
    ensures
        ts_ir_ok(*final(ir), pkg, path@),
        ts_extends(*old(ir), *final(ir), func_out(*t, c as int, prefix@, exported, parent_seq(parent), views(decorators@)), *t, path@),
{
    match extract_function(t, c, path, prefix, exported, parent) {
        Some(sym) => {
            proof {
                lemma_member_qualified_starts(prefix@, match parent {
                    Some(p) => Some(p@),
                    None => None,
                }, sym.name@, pkg);
            }
            let mut sym = sym;
            let ghost at0 = sym.attributes@;
            assert(views(at0).len() == at0.len());
            assert(at0.len() == 0);
            extend_cloned(&mut sym.attributes, decorators);
            assert(views(sym.attributes@).len() == views(decorators@).len());
            assert forall|q: int| 0 <= q < views(sym.attributes@).len() implies views(sym.attributes@)[q] == views(
                decorators@,
            )[q] by {
                assert(sym.attributes@[at0.len() + q]@ == decorators@[q]@);
            }
            assert(views(sym.attributes@) =~= views(decorators@));
            let ghost sv = sym;
            push_ts_symbol(ir, sym, Ghost(pkg), Ghost(path@));
            proof {
                lemma_pushed_ts_symbol(
                    *old(ir),
                    *ir,
                    sv,
                    TsSymSrc::Func(c as int, prefix@, exported, parent_seq(parent), views(decorators@)),
                    *t,
                    path@,
                );
            }
        },
        None => {
            proof {
                lemma_ts_extends_refl(*ir, *t, path@);
            }
        },
    }
}

/// The declarations inside an export statement, with its decorators.
fn extract_declarations(
    t: &SyntaxTree,
    n: usize,
    path: &str,
    prefix: &str,
    exported: bool,
    parent: Option<&str>,
    decorators: &Vec<String>,
    ir: &mut Ir,
    Ghost(pkg): Ghost<Seq<char>>,
)
    requires
        t.wf(),
        n < t.len(),
        starts_with(prefix@, pkg),
        pkg.len() > 0 ==> prefix@.len() > 0,
        ts_ir_ok(*old(ir), pkg, path@),
    ensures
        ts_ir_ok(*final(ir), pkg, path@),
        ts_extends_loose(
            *old(ir),
            *final(ir),
            decls_in(*t, n as int, t.children(n as int), prefix@, exported, parent_seq(parent), views(decorators@)),
            *t,
            path@,
        ),
    decreases t.len() - n, 1int,
{
    let ghost pv = parent_seq(parent);
    let ghost dv = views(decorators@);
    let cs = &t.nodes[n].children;
    let ghost all = t.children(n as int);
    proof {
        lemma_children_after(*t, n as int);
        lemma_ts_extends_refl(*ir, *t, path@);
        lemma_ts_loose_of_exact(*ir, *ir, ts_out_none(), *t, path@);
        assert(all.take(0) =~= Seq::<usize>::empty());
    }
    let mut i: usize = 0;
    while i < cs.len()
        invariant
            i <= cs.len(),
            t.wf(),
            n < t.len(),
            all == cs@,
            pv == parent_seq(parent),
            dv == views(decorators@),
            starts_with(prefix@, pkg),
            pkg.len() > 0 ==> prefix@.len() > 0,
            forall|j: int| 0 <= j < all.len() ==> n < #[trigger] all[j] < t.len(),
            ts_ir_ok(*ir, pkg, path@),
            ts_extends_loose(*old(ir), *ir, decls_in(*t, n as int, all.take(i as int), prefix@, exported, pv, dv), *t, path@),
        decreases cs.len() - i,
    {
        let c = cs[i];
        assert(all[i as int] == c);
        assert(all.take(i + 1).drop_last() =~= all.take(i as int));
        let ghost prev = decls_in(*t, n as int, all.take(i as int), prefix@, exported, pv, dv);
        let ghost before = *ir;
        if kind_is(t, c, "function_declaration") {
            push_function(t, c, path, prefix, exported, parent, decorators, ir, Ghost(pkg));
            proof {
                lemma_ts_loose_of_exact(before, *ir, func_out(*t, c as int, prefix@, exported, pv, dv), *t, path@);
            }
        } else if kind_is(t, c, "lexical_declaration") {
            extract_lexical_declaration(t, c, path, prefix, exported, parent, ir, Ghost(pkg));
            proof {
                lemma_ts_loose_of_exact(before, *ir, ts_syms(lexical_in(*t, t.children(c as int), prefix@, exported, pv)), *t, path@);
            }
        } else if kind_is(t, c, "class_declaration") || kind_is(t, c, "abstract_class_declaration") {
            extract_class(t, c, path, prefix, exported, decorators, ir, Ghost(pkg));
            proof {
                lemma_ts_loose_of_exact(before, *ir, class_out(*t, c as int, prefix@, exported, dv), *t, path@);
            }
        } else if kind_is(t, c, "interface_declaration") {
            extract_interface(t, c, path, prefix, exported, ir, Ghost(pkg));
            proof {
                lemma_ts_loose_of_exact(before, *ir, interface_out(*t, c as int, prefix@, exported), *t, path@);
            }
        } else if kind_is(t, c, "enum_declaration") {
            let s = extract_enum(t, c, path, prefix, exported);
            push_named(ir, s, prefix, Ghost(pkg), Ghost(path@));
            proof {
                let src = TsSymSrc::Enum(c as int, prefix@, exported);
                lemma_named_pushed(before, *ir, s, src, *t, c as int, path@);
                lemma_ts_loose_of_exact(before, *ir, named_out(*t, c as int, src), *t, path@);
            }
        } else if kind_is(t, c, "type_alias_declaration") {
            let s = extract_type_alias(t, c, path, prefix, exported);
            push_named(ir, s, prefix, Ghost(pkg), Ghost(path@));
            proof {
                let src = TsSymSrc::Alias(c as int, prefix@, exported);
                lemma_named_pushed(before, *ir, s, src, *t, c as int, path@);
                lemma_ts_loose_of_exact(before, *ir, named_out(*t, c as int, src), *t, path@);
            }
        } else if kind_is(t, c, "internal_module") {
            extract_namespace(t, c, path, prefix, exported, ir, Ghost(pkg));
        } else {
            proof {
                lemma_ts_extends_refl(*ir, *t, path@);
                lemma_ts_loose_of_exact(*ir, *ir, ts_out_none(), *t, path@);
            }
        }
        proof {
            lemma_ts_loose_trans(
                *old(ir),
                before,
                *ir,
                prev,
                decl_out(*t, c as int, prefix@, exported, pv, dv),
                *t,
                path@,
            );
        }
        i += 1;
    }
    assert(all.take(cs.len() as int) =~= all);
}

/// The IR of a TypeScript file from its syntax tree, under the module
/// prefix of its path.
pub fn extract_ir(t: &SyntaxTree, path: &str) -> (r: Ir)
    requires
        t.wf(),
        t.len() > 0,
    ensures
        ts_ir_ok(r, ts_module_prefix_spec(path@), path@),
        ts_ir_loose_exact(r, *t, path@),
{
    let prefix = module_prefix_from_path(path);
    let mut ir = Ir::new();
    let ghost start = ir;
    proof {
        assert(prefix@.subrange(0, prefix@.len() as int) =~= prefix@);
    }
    extract_items(t, 0, path, prefix.as_str(), false, None, &mut ir, Ghost(prefix@));
    proof {
        let out = items_in(*t, 0, t.children(0), prefix@, false, None).0;
        assert(parent_seq(None) == None::<Seq<char>>);
        assert forall|k: int| 0 <= k < out.syms.len() implies ts_sym_from_loose(#[trigger] ir.symbols@[k], out.syms[k], *t, path@) by {
            assert(ir.symbols@[start.symbols@.len() + k] == ir.symbols@[k]);
        }
        assert forall|k: int| 0 <= k < out.deps.len() implies ts_dep_from(#[trigger] ir.dependencies@[k], out.deps[k], *t, path@) by {
            assert(ir.dependencies@[start.dependencies@.len() + k] == ir.dependencies@[k]);
        }
    }
    ir
}

/// The grammar a TypeScript file is parsed with: TSX for a `.tsx` file.
pub open spec fn ts_grammar_of(path: Seq<char>) -> crate::parser::grammar::Grammar {
    if crate::paths::extension(path) == Some("tsx"@) {
        crate::parser::grammar::Grammar::Tsx
    } else {
        crate::parser::grammar::Grammar::TypeScript
    }
}

/// Parse a TypeScript or TSX source file and return the IR.
pub fn parse_file(path: &str, source: &str) -> (r: Result<Ir, String>)
    ensures
        r matches Ok(ir) ==> ts_ir_ok(ir, ts_module_prefix_spec(path@), path@),
        r is Ok <==> crate::parser::grammar::grammar_loads(crate::parser::grammar::grammar_id(ts_grammar_of(path@))),
        r matches Ok(ir) ==> exists|tr: SyntaxTree| tr.wf() && tr.len() > 0 && crate::parser::grammar::tree_view(tr) == crate::parser::grammar::ts_layout(
            crate::parser::grammar::grammar_id(ts_grammar_of(path@)),
            source@,
        ) && #[trigger] ts_ir_loose_exact(ir, tr, path@),
{
    let ext = crate::paths::extension_of(path);
    let is_tsx = match &ext {
        Some(e) => str_eq(e.as_str(), "tsx"),
        None => false,
    };
    assert(is_tsx == (crate::paths::extension(path@) == Some("tsx"@)));
    let g = if is_tsx {
        crate::parser::grammar::Grammar::Tsx
    } else {
        crate::parser::grammar::Grammar::TypeScript
    };
    assert(g == ts_grammar_of(path@));
    match crate::parser::grammar::build_tree(g, source) {
        Ok(t) => {
            let ir = extract_ir(&t, path);
            let r = Ok(ir);
            proof {
                let gi = r->Ok_0;
                assert(t.wf() && t.len() > 0 && crate::parser::grammar::tree_view(t) == crate::parser::grammar::ts_layout(crate::parser::grammar::grammar_id(ts_grammar_of(path@)), source@) && ts_ir_loose_exact(gi, t, path@));
            }
            r
        },
        Err(e) => Err(crate::parser::grammar::tree_error_message(e, path)),
    }
}

} // verus!

verus! {

/// A class member's visibility follows its accessibility modifier:
/// `private` gives private, `protected` crate-level, any other modifier or
/// none public; the three give three different visibilities.
pub proof fn lemma_ts_member_visibility_cases(t: SyntaxTree, n: int)
    ensures
        ts_member_vis(t, n) == Visibility::Private <==> (child_of_kind(t, n, "accessibility_modifier"@) is Some
            && t.text(child_of_kind(t, n, "accessibility_modifier"@)->Some_0 as int) == "private"@),
        ts_member_vis(t, n) == Visibility::Crate <==> (child_of_kind(t, n, "accessibility_modifier"@) is Some
            && t.text(child_of_kind(t, n, "accessibility_modifier"@)->Some_0 as int) == "protected"@),
        ts_member_vis(t, n) == Visibility::Public <==> (child_of_kind(t, n, "accessibility_modifier"@) is None || (
        t.text(child_of_kind(t, n, "accessibility_modifier"@)->Some_0 as int) != "private"@ && t.text(
            child_of_kind(t, n, "accessibility_modifier"@)->Some_0 as int,
        ) != "protected"@)),
{
    reveal_strlit("private");
    reveal_strlit("protected");
    assert("private"@ != "protected"@) by {
        assert("private"@[2] != "protected"@[2]);
    }
}

} // verus!
