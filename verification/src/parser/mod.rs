//! Per-language extraction of symbols and dependencies, and the dispatch by
//! file extension that is the single point where paths and sources enter the
//! IR: paths are normalized to `/` separators and CRLF line endings are
//! folded to LF before a language module sees them.

pub mod common;
pub mod go;
pub mod grammar;
pub mod java;
pub mod python;
pub mod rust;
pub mod tree;
pub mod typescript;

use vstd::prelude::*;

use crate::ir::types::Ir;
use crate::lang::{extensions_display_spec, lang_for_path, language_for_path, supported_extensions_display};
use crate::paths::{extension, extension_of, normalize};
use crate::text::{chars_of, owned, push_char, push_str, str_eq};

verus! {

/// `s` with every `\r\n` folded to `\n`.
pub open spec fn fold_crlf(s: Seq<char>) -> Seq<char>
    decreases s.len(),
{
    if s.len() == 0 {
        seq![]
    } else if s.len() >= 2 && s[0] == '\r' && s[1] == '\n' {
        seq!['\n'] + fold_crlf(s.skip(2))
    } else {
        seq![s[0]] + fold_crlf(s.skip(1))
    }
}

/// The source with CRLF line endings folded to LF.
pub fn fold_line_endings(source: &str) -> (r: String)
    ensures
        r@ == fold_crlf(source@),
{
    let v = chars_of(source);
    let mut out = String::new();
    let mut i: usize = 0;
    assert(v@.skip(0) =~= v@);
    while i < v.len()
        invariant
            i <= v.len(),
            v@ == source@,
            fold_crlf(source@) == out@ + fold_crlf(v@.skip(i as int)),
        decreases v.len() - i,
    {
        if i + 1 < v.len() && v[i] == '\r' && v[i + 1] == '\n' {
            assert(v@.skip(i as int).skip(2) =~= v@.skip(i + 2));
            let ghost before = out@;
            push_char(&mut out, '\n');
            assert(out@ + fold_crlf(v@.skip(i + 2)) =~= before + (seq!['\n'] + fold_crlf(v@.skip(i + 2))));
            i += 2;
        } else {
            assert(v@.skip(i as int).skip(1) =~= v@.skip(i + 1));
            assert(v@.skip(i as int)[0] == v@[i as int]);
            let ghost before = out@;
            push_char(&mut out, v[i]);
            assert(out@ + fold_crlf(v@.skip(i + 1)) =~= before + (seq![v@[i as int]] + fold_crlf(v@.skip(i + 1))));
            i += 1;
        }
    }
    assert(v@.skip(i as int) =~= Seq::<char>::empty());
    assert(out@ + Seq::<char>::empty() =~= out@);
    out
}

/// The error for a file no language handles.
pub open spec fn unsupported_message(path: Seq<char>) -> Seq<char> {
    let ext = match extension(path) {
        Some(e) => e,
        None => seq![],
    };
    "Unsupported file type '."@ + ext + "'. smartgrep supports "@ + extensions_display_spec() + " files."@
}

/// Every symbol and dependency of `ir` is located in the file `path`.
pub open spec fn located_in(ir: Ir, path: Seq<char>) -> bool {
    forall|i: int| 0 <= i < ir.symbols@.len() ==> (#[trigger] ir.symbols@[i]).loc.file@ == path
}

/// The result is the unsupported-file error for `path`.
pub open spec fn is_unsupported(r: Result<Ir, String>, path: Seq<char>) -> bool {
    r matches Err(e) && e@ == unsupported_message(path)
}

/// The result is an IR located in `path`.
pub open spec fn parsed_in(r: Result<Ir, String>, path: Seq<char>) -> bool {
    r matches Ok(ir) && located_in(ir, path)
}

/// The grammar the language named `name` parses the file `path` with.
pub open spec fn lang_grammar(name: Seq<char>, path: Seq<char>) -> crate::parser::grammar::Grammar {
    if name == "rust"@ {
        crate::parser::grammar::Grammar::Rust
    } else if name == "java"@ {
        crate::parser::grammar::Grammar::Java
    } else if name == "go"@ {
        crate::parser::grammar::Grammar::Go
    } else if name == "typescript"@ {
        typescript::ts_grammar_of(path)
    } else {
        crate::parser::grammar::Grammar::Python
    }
}

/// The IR the language named `name` makes of the tree `t` of the file `path`.
pub open spec fn lang_exact(name: Seq<char>, ir: Ir, t: crate::parser::tree::SyntaxTree, path: Seq<char>) -> bool {
    if name == "rust"@ {
        rust::rust_ir_exact(ir, t, path)
    } else if name == "java"@ {
        java::java_ir_exact(ir, t, path)
    } else if name == "go"@ {
        go::go_ir_exact(ir, t, path)
    } else if name == "typescript"@ {
        typescript::ts_ir_loose_exact(ir, t, path)
    } else {
        python::py_ir_exact(ir, t, path)
    }
}

/// What parsing `source` as the file `path` gives, by the language its
/// extension selects: the unsupported-file error without one; else `Ok`
/// exactly when the language's grammar loads, and then the IR the language
/// makes of the tree tree-sitter builds for the source.
pub open spec fn parse_result_spec(r: Result<Ir, String>, path: Seq<char>, source: Seq<char>) -> bool {
    match lang_for_path(path) {
        None => is_unsupported(r, path),
        Some(l) => {
            let g = crate::parser::grammar::grammar_id(lang_grammar(l.name, path));
            &&& (r is Ok <==> crate::parser::grammar::grammar_loads(g))
            &&& (r matches Ok(ir) ==> exists|tr: crate::parser::tree::SyntaxTree|
                tr.wf() && tr.len() > 0 && crate::parser::grammar::tree_view(tr) == crate::parser::grammar::ts_layout(g, source) && #[trigger] lang_exact(
                    l.name,
                    ir,
                    tr,
                    path,
                ))
        },
    }
}

/// Parse a file whose path already uses `/` separators.
pub fn parse_slash_path(path: &str, source: &str) -> (r: Result<Ir, String>)
    ensures
        lang_for_path(path@) is None ==> is_unsupported(r, path@),
        r is Ok ==> lang_for_path(path@) is Some && parsed_in(r, path@),
        parse_result_spec(r, path@, source@),
{
    match language_for_path(path) {
        Some(lang) => {
            let r = if str_eq(lang.name, "rust") {
                let r = rust::parse_file(path, source);
            proof {
                if r is Ok {
                    let ir = r->Ok_0;
                    let tr = choose|tr: crate::parser::tree::SyntaxTree|
                        tr.wf() && tr.len() > 0 && crate::parser::grammar::tree_view(tr) == crate::parser::grammar::ts_layout(crate::parser::grammar::grammar_id(crate::parser::grammar::Grammar::Rust), source@)
                            && #[trigger] rust::rust_ir_exact(ir, tr, path@);
                    assert(lang_exact(lang.name@, ir, tr, path@));
                }
            }
                match r {
                    Ok(ir) => {
                        assert forall|i: int| 0 <= i < ir.symbols@.len() implies (#[trigger] ir.symbols@[i]).loc.file@ == path@ by {
                            assert(rust::rust_symbol_ok(ir.symbols@[i], rust::rust_module_prefix_spec(path@), path@));
                        }
                        Ok(ir)
                    },
                    Err(e) => Err(e),
                }
            } else if str_eq(lang.name, "java") {
                let r = java::parse_file(path, source);
            proof {
                if r is Ok {
                    let ir = r->Ok_0;
                    let tr = choose|tr: crate::parser::tree::SyntaxTree|
                        tr.wf() && tr.len() > 0 && crate::parser::grammar::tree_view(tr) == crate::parser::grammar::ts_layout(crate::parser::grammar::grammar_id(crate::parser::grammar::Grammar::Java), source@)
                            && #[trigger] java::java_ir_exact(ir, tr, path@);
                    assert(lang_exact(lang.name@, ir, tr, path@));
                }
            }
                r
            } else if str_eq(lang.name, "go") {
                let r = go::parse_file(path, source);
            proof {
                if r is Ok {
                    let ir = r->Ok_0;
                    let tr = choose|tr: crate::parser::tree::SyntaxTree|
                        tr.wf() && tr.len() > 0 && crate::parser::grammar::tree_view(tr) == crate::parser::grammar::ts_layout(crate::parser::grammar::grammar_id(crate::parser::grammar::Grammar::Go), source@)
                            && #[trigger] go::go_ir_exact(ir, tr, path@);
                    assert(lang_exact(lang.name@, ir, tr, path@));
                }
            }
                r
            } else if str_eq(lang.name, "typescript") {
                let r = typescript::parse_file(path, source);
            proof {
                if r is Ok {
                    let ir = r->Ok_0;
                    let tr = choose|tr: crate::parser::tree::SyntaxTree|
                        tr.wf() && tr.len() > 0 && crate::parser::grammar::tree_view(tr) == crate::parser::grammar::ts_layout(crate::parser::grammar::grammar_id(typescript::ts_grammar_of(path@)), source@)
                            && #[trigger] typescript::ts_ir_loose_exact(ir, tr, path@);
                    assert(lang_exact(lang.name@, ir, tr, path@));
                }
            }
                match r {
                    Ok(ir) => {
                        assert forall|i: int| 0 <= i < ir.symbols@.len() implies (#[trigger] ir.symbols@[i]).loc.file@ == path@ by {
                            assert(typescript::ts_symbol_ok(ir.symbols@[i], typescript::ts_module_prefix_spec(path@), path@));
                        }
                        Ok(ir)
                    },
                    Err(e) => Err(e),
                }
            } else {
                let r = python::parse_file(path, source);
            proof {
                if r is Ok {
                    let ir = r->Ok_0;
                    let tr = choose|tr: crate::parser::tree::SyntaxTree|
                        tr.wf() && tr.len() > 0 && crate::parser::grammar::tree_view(tr) == crate::parser::grammar::ts_layout(crate::parser::grammar::grammar_id(crate::parser::grammar::Grammar::Python), source@)
                            && #[trigger] python::py_ir_exact(ir, tr, path@);
                    assert(lang_exact(lang.name@, ir, tr, path@));
                }
            }
                match r {
                    Ok(ir) => {
                        assert forall|i: int| 0 <= i < ir.symbols@.len() implies (#[trigger] ir.symbols@[i]).loc.file@ == path@ by {
                            assert(python::py_symbol_ok(ir.symbols@[i], python::py_module_path_spec(path@), path@));
                        }
                        Ok(ir)
                    },
                    Err(e) => Err(e),
                }
            };
            r
        },
        None => {
            let ext = match extension_of(path) {
                Some(e) => e,
                None => String::new(),
            };
            let mut msg = owned("Unsupported file type '.");
            push_str(&mut msg, ext.as_str());
            push_str(&mut msg, "'. smartgrep supports ");
            let display = supported_extensions_display();
            push_str(&mut msg, display.as_str());
            push_str(&mut msg, " files.");
            Err(msg)
        },
    }
}

/// The `/`-separated form `normalize` gives a path (on a host whose
/// separator is `/` or `\\`).
pub open spec fn is_normal_form(p: Seq<char>, path: Seq<char>) -> bool {
    p == path || p == crate::text::replace_char(path, '\\', '/')
}

/// Parse a source file by dispatching to the language module its extension
/// selects. The path is normalized to `/` separators and CRLF line endings
/// are folded to LF first.
pub fn parse_by_extension(path: &str, source: &str) -> (r: Result<Ir, String>)
    ensures
        exists|p: Seq<char>|
            #[trigger] is_normal_form(p, path@) && (lang_for_path(p) is None ==> is_unsupported(r, p)) && (r is Ok
                ==> lang_for_path(p) is Some && parsed_in(r, p)) && parse_result_spec(r, p, fold_crlf(source@)),
{
    let p = normalize(path);
    assert(is_normal_form(p@, path@));
    if crate::text::str_contains(source, "\r") {
        let folded = fold_line_endings(source);
        parse_slash_path(p.as_str(), folded.as_str())
    } else {
        proof {
            assert(!source@.contains('\r')) by {
                if source@.contains('\r') {
                    let j = choose|j: int| 0 <= j < source@.len() && source@[j] == '\r';
                    reveal_strlit("\r");
                    assert(source@.subrange(j, j + 1) =~= "\r"@);
                    assert(crate::text::occurs_at(source@, "\r"@, j));
                }
            }
            lemma_fold_crlf_plain(source@);
        }
        parse_slash_path(p.as_str(), source)
    }
}

/// Text without a `\r` is its own folded form.
pub proof fn lemma_fold_crlf_plain(s: Seq<char>)
    requires
        !s.contains('\r'),
    ensures
        fold_crlf(s) == s,
    decreases s.len(),
{
    if s.len() > 0 {
        assert(s[0] != '\r');
        assert(!s.skip(1).contains('\r')) by {
            if s.skip(1).contains('\r') {
                let j = choose|j: int| 0 <= j < s.skip(1).len() && s.skip(1)[j] == '\r';
                assert(s[j + 1] == '\r');
            }
        }
        lemma_fold_crlf_plain(s.skip(1));
        assert(seq![s[0]] + s.skip(1) =~= s);
    }
}

/// `s` with every line break written `\r\n`.
pub open spec fn to_crlf(s: Seq<char>) -> Seq<char>
    decreases s.len(),
{
    if s.len() == 0 {
        seq![]
    } else if s[0] == '\n' {
        seq!['\r', '\n'] + to_crlf(s.skip(1))
    } else {
        seq![s[0]] + to_crlf(s.skip(1))
    }
}

/// A text without `\r` and the same text with CRLF line breaks fold to the
/// same source, so `parse_by_extension` states the same result of both.
pub proof fn lemma_crlf_parses_alike(s: Seq<char>)
    requires
        !s.contains('\r'),
    ensures
        fold_crlf(to_crlf(s)) == fold_crlf(s),
        fold_crlf(s) == s,
    decreases s.len(),
{
    lemma_fold_crlf_plain(s);
    if s.len() > 0 {
        assert(!s.skip(1).contains('\r')) by {
            if s.skip(1).contains('\r') {
                let j = choose|j: int| 0 <= j < s.skip(1).len() && s.skip(1)[j] == '\r';
                assert(s[j + 1] == '\r');
            }
        }
        lemma_crlf_parses_alike(s.skip(1));
        let x = to_crlf(s);
        if s[0] == '\n' {
            assert(x.skip(2) =~= to_crlf(s.skip(1)));
            assert(fold_crlf(x) == seq!['\n'] + fold_crlf(to_crlf(s.skip(1))));
        } else {
            assert(x.skip(1) =~= to_crlf(s.skip(1)));
            assert(x[0] == s[0]);
            assert(fold_crlf(x) == seq![s[0]] + fold_crlf(to_crlf(s.skip(1))));
        }
        assert(seq![s[0]] + s.skip(1) =~= s);
    }
}

} // verus!
