//! Language registry: the single place that knows which languages smartgrep
//! supports, which file extensions map to which parser, which files mark a
//! project root, and which directories to skip while walking sources.

use vstd::prelude::*;

use crate::paths::{components, extension, extension_of, path_components};
use crate::text::{join, push_str, str_eq, views};

verus! {

/// A supported source language.
#[derive(Debug, Clone)]
pub struct LanguageEntry {
    /// Lowercase language name (e.g. "rust", "typescript").
    pub name: &'static str,
    /// Display name for human-facing text (e.g. "TypeScript").
    pub display_name: &'static str,
    /// File extensions without the leading dot.
    pub extensions: Vec<&'static str>,
    /// Files whose presence marks a project root.
    pub project_markers: Vec<&'static str>,
    /// Directory names to skip while collecting sources.
    pub skip_dirs: Vec<&'static str>,
    /// Language-native symbol kinds this language's parser emits.
    pub kinds: Vec<&'static str>,
}

/// The mathematical content of a [`LanguageEntry`].
#[verifier::ext_equal]
pub struct LangSpec {
    pub name: Seq<char>,
    pub display_name: Seq<char>,
    pub extensions: Seq<Seq<char>>,
    pub project_markers: Seq<Seq<char>>,
    pub skip_dirs: Seq<Seq<char>>,
    pub kinds: Seq<Seq<char>>,
}

pub open spec fn strs(v: Seq<&'static str>) -> Seq<Seq<char>> {
    v.map_values(|s: &'static str| s@)
}

impl LanguageEntry {
    /// A copy of the entry.
    pub fn clone_language(&self) -> (r: LanguageEntry)
        ensures
            r.spec() == self.spec(),
            r.name == self.name,
    {
        LanguageEntry {
            name: self.name,
            display_name: self.display_name,
            extensions: copy_strs(&self.extensions),
            project_markers: copy_strs(&self.project_markers),
            skip_dirs: copy_strs(&self.skip_dirs),
            kinds: copy_strs(&self.kinds),
        }
    }

    pub open spec fn spec(&self) -> LangSpec {
        LangSpec {
            name: self.name@,
            display_name: self.display_name@,
            extensions: strs(self.extensions@),
            project_markers: strs(self.project_markers@),
            skip_dirs: strs(self.skip_dirs@),
            kinds: strs(self.kinds@),
        }
    }
}

fn copy_strs(v: &Vec<&'static str>) -> (r: Vec<&'static str>)
    ensures
        strs(r@) == strs(v@),
{
    let mut r: Vec<&'static str> = Vec::new();
    let mut i: usize = 0;
    while i < v.len()
        invariant
            i <= v.len(),
            r@ == v@.take(i as int),
        decreases v.len() - i,
    {
        r.push(v[i]);
        assert(r@ =~= v@.take(i + 1));
        i += 1;
    }
    assert(r@ =~= v@);
    r
}

/// Directories skipped regardless of language (`target` is shared by Cargo
/// and Maven).
pub open spec fn global_skip_dirs() -> Seq<Seq<char>> {
    seq![".smartgrep"@, "target"@]
}

/// The registered languages, in registry order.
pub open spec fn registry() -> Seq<LangSpec> {
    seq![
        LangSpec {
            name: "rust"@,
            display_name: "Rust"@,
            extensions: seq!["rs"@],
            project_markers: seq!["Cargo.toml"@],
            skip_dirs: seq![],
            kinds: seq!["fn"@, "method"@, "struct"@, "enum"@, "trait"@, "impl"@, "const"@, "type"@, "mod"@],
        },
        LangSpec {
            name: "java"@,
            display_name: "Java"@,
            extensions: seq!["java"@],
            project_markers: seq!["pom.xml"@, "build.gradle"@, "build.gradle.kts"@],
            skip_dirs: seq![],
            kinds: seq!["class"@, "interface"@, "enum"@, "record"@, "annotation"@, "method"@],
        },
        LangSpec {
            name: "go"@,
            display_name: "Go"@,
            extensions: seq!["go"@],
            project_markers: seq!["go.mod"@],
            skip_dirs: seq![],
            kinds: seq!["func"@, "method"@, "struct"@, "interface"@, "const"@, "type"@],
        },
        LangSpec {
            name: "typescript"@,
            display_name: "TypeScript"@,
            extensions: seq!["ts"@, "tsx"@],
            project_markers: seq!["package.json"@, "tsconfig.json"@],
            skip_dirs: seq!["node_modules"@],
            kinds: seq!["function"@, "class"@, "interface"@, "enum"@, "type"@, "method"@, "const"@, "namespace"@],
        },
        LangSpec {
            name: "python"@,
            display_name: "Python"@,
            extensions: seq!["py"@, "pyi"@],
            project_markers: seq!["pyproject.toml"@, "setup.py"@, "setup.cfg"@, "requirements.txt"@],
            skip_dirs: seq!["__pycache__"@, "venv"@, ".venv"@, "site-packages"@, ".tox"@, ".mypy_cache"@, ".pytest_cache"@],
            kinds: seq!["def"@, "class"@, "method"@, "const"@, "type"@],
        },
    ]
}

/// Index of the first registered language (from `from` on) with extension `e`.
pub open spec fn lang_with_ext_from(e: Seq<char>, from: int) -> Option<int>
    decreases registry().len() - from,
{
    if from < 0 || from >= registry().len() {
        None
    } else if registry()[from].extensions.contains(e) {
        Some(from)
    } else {
        lang_with_ext_from(e, from + 1)
    }
}

/// The registry entry that handles a path, by extension.
pub open spec fn lang_for_path(p: Seq<char>) -> Option<LangSpec> {
    match extension(p) {
        Some(e) => match lang_with_ext_from(e, 0) {
            Some(i) => Some(registry()[i]),
            None => None,
        },
        None => None,
    }
}

pub open spec fn is_skip_dir_spec(name: Seq<char>) -> bool {
    global_skip_dirs().contains(name) || exists|i: int|
        0 <= i < registry().len() && registry()[i].skip_dirs.contains(name)
}

pub open spec fn is_in_skipped_dir_spec(p: Seq<char>) -> bool {
    let c = components(p);
    exists|i: int| 0 <= i < c.len() - 1 && is_skip_dir_spec(c[i])
}

/// Every project marker, language by language.
pub open spec fn all_markers_upto(n: int) -> Seq<Seq<char>>
    decreases n,
{
    if n <= 0 {
        seq![]
    } else {
        all_markers_upto(n - 1) + registry()[n - 1].project_markers
    }
}

/// Every extension, language by language.
pub open spec fn all_extensions_upto(n: int) -> Seq<Seq<char>>
    decreases n,
{
    if n <= 0 {
        seq![]
    } else {
        all_extensions_upto(n - 1) + registry()[n - 1].extensions
    }
}

/// `.rs, .java, .go, ...`: every extension with a leading dot, comma-separated.
pub open spec fn extensions_display_spec() -> Seq<char> {
    join(all_extensions_upto(registry().len() as int).map_values(|e: Seq<char>| "."@ + e), ", "@)
}

/// The registered languages, in registry order.
pub fn languages() -> (r: Vec<LanguageEntry>)
    ensures
        r@.len() == registry().len(),
        forall|i: int| 0 <= i < r@.len() ==> #[trigger] r@[i].spec() == registry()[i],
{
    let r = vec![
        LanguageEntry {
            name: "rust",
            display_name: "Rust",
            extensions: vec!["rs"],
            project_markers: vec!["Cargo.toml"],
            skip_dirs: vec![],
            kinds: vec!["fn", "method", "struct", "enum", "trait", "impl", "const", "type", "mod"],
        },
        LanguageEntry {
            name: "java",
            display_name: "Java",
            extensions: vec!["java"],
            project_markers: vec!["pom.xml", "build.gradle", "build.gradle.kts"],
            skip_dirs: vec![],
            kinds: vec!["class", "interface", "enum", "record", "annotation", "method"],
        },
        LanguageEntry {
            name: "go",
            display_name: "Go",
            extensions: vec!["go"],
            project_markers: vec!["go.mod"],
            skip_dirs: vec![],
            kinds: vec!["func", "method", "struct", "interface", "const", "type"],
        },
        LanguageEntry {
            name: "typescript",
            display_name: "TypeScript",
            extensions: vec!["ts", "tsx"],
            project_markers: vec!["package.json", "tsconfig.json"],
            skip_dirs: vec!["node_modules"],
            kinds: vec!["function", "class", "interface", "enum", "type", "method", "const", "namespace"],
        },
        LanguageEntry {
            name: "python",
            display_name: "Python",
            extensions: vec!["py", "pyi"],
            project_markers: vec!["pyproject.toml", "setup.py", "setup.cfg", "requirements.txt"],
            skip_dirs: vec!["__pycache__", "venv", ".venv", "site-packages", ".tox", ".mypy_cache", ".pytest_cache"],
            kinds: vec!["def", "class", "method", "const", "type"],
        },
    ];
    assert(strs(r@[0].extensions@) =~= seq!["rs"@]);
    assert(strs(r@[0].project_markers@) =~= seq!["Cargo.toml"@]);
    assert(strs(r@[0].skip_dirs@) =~= Seq::<Seq<char>>::empty());
    assert(strs(r@[0].kinds@) =~= seq!["fn"@, "method"@, "struct"@, "enum"@, "trait"@, "impl"@, "const"@, "type"@, "mod"@]);
    assert(r@[0].spec() == registry()[0]);
    assert(strs(r@[1].extensions@) =~= seq!["java"@]);
    assert(strs(r@[1].project_markers@) =~= seq!["pom.xml"@, "build.gradle"@, "build.gradle.kts"@]);
    assert(strs(r@[1].skip_dirs@) =~= Seq::<Seq<char>>::empty());
    assert(strs(r@[1].kinds@) =~= seq!["class"@, "interface"@, "enum"@, "record"@, "annotation"@, "method"@]);
    assert(r@[1].spec() == registry()[1]);
    assert(strs(r@[2].extensions@) =~= seq!["go"@]);
    assert(strs(r@[2].project_markers@) =~= seq!["go.mod"@]);
    assert(strs(r@[2].skip_dirs@) =~= Seq::<Seq<char>>::empty());
    assert(strs(r@[2].kinds@) =~= seq!["func"@, "method"@, "struct"@, "interface"@, "const"@, "type"@]);
    assert(r@[2].spec() == registry()[2]);
    assert(strs(r@[3].extensions@) =~= seq!["ts"@, "tsx"@]);
    assert(strs(r@[3].project_markers@) =~= seq!["package.json"@, "tsconfig.json"@]);
    assert(strs(r@[3].skip_dirs@) =~= seq!["node_modules"@]);
    assert(strs(r@[3].kinds@) =~= seq!["function"@, "class"@, "interface"@, "enum"@, "type"@, "method"@, "const"@, "namespace"@]);
    assert(r@[3].spec() == registry()[3]);
    assert(strs(r@[4].extensions@) =~= seq!["py"@, "pyi"@]);
    assert(strs(r@[4].project_markers@) =~= seq!["pyproject.toml"@, "setup.py"@, "setup.cfg"@, "requirements.txt"@]);
    assert(strs(r@[4].skip_dirs@) =~= seq!["__pycache__"@, "venv"@, ".venv"@, "site-packages"@, ".tox"@, ".mypy_cache"@, ".pytest_cache"@]);
    assert(strs(r@[4].kinds@) =~= seq!["def"@, "class"@, "method"@, "const"@, "type"@]);
    assert(r@[4].spec() == registry()[4]);
    r
}

/// Is `s` one of `v`?
pub fn str_in(v: &Vec<&'static str>, s: &str) -> (r: bool)
    ensures
        r == strs(v@).contains(s@),
{
    let mut i: usize = 0;
    while i < v.len()
        invariant
            i <= v.len(),
            forall|j: int| 0 <= j < i ==> v@[j]@ != s@,
        decreases v.len() - i,
    {
        if str_eq(v[i], s) {
            assert(strs(v@)[i as int] == s@);
            return true;
        }
        i += 1;
    }
    assert(!strs(v@).contains(s@)) by {
        if strs(v@).contains(s@) {
            let j = choose|j: int| 0 <= j < strs(v@).len() && strs(v@)[j] == s@;
            assert(v@[j]@ == s@);
        }
    }
    false
}

/// Find the language that handles a file, by extension.
pub fn language_for_path(path: &str) -> (r: Option<LanguageEntry>)
    ensures
        match r {
            Some(l) => lang_for_path(path@) == Some(l.spec()),
            None => lang_for_path(path@) is None,
        },
{
    let ext = match extension_of(path) {
        Some(e) => e,
        None => return None,
    };
    assert(extension(path@) == Some(ext@));
    let mut langs = languages();
    let mut i: usize = 0;
    while i < langs.len()
        invariant
            i <= langs.len(),
            langs@.len() == registry().len(),
            forall|j: int| 0 <= j < langs@.len() ==> #[trigger] langs@[j].spec() == registry()[j],
            lang_with_ext_from(ext@, 0) == lang_with_ext_from(ext@, i as int),
            extension(path@) == Some(ext@),
        decreases langs.len() - i,
    {
        assert(langs@[i as int].spec() == registry()[i as int]);
        if str_in(&langs[i].extensions, ext.as_str()) {
            let ghost li = langs@[i as int];
            assert(li.spec().extensions == strs(li.extensions@));
            assert(registry()[i as int].extensions.contains(ext@));
            assert(lang_with_ext_from(ext@, i as int) == Some(i as int));
            let l = langs.remove(i);
            assert(l == li);
            assert(lang_for_path(path@) == Some(registry()[i as int]));
            return Some(l);
        }
        i += 1;
    }
    None
}

/// True if the path has an extension handled by some registered language.
pub fn is_source_file(path: &str) -> (r: bool)
    ensures
        r == lang_for_path(path@) is Some,
{
    language_for_path(path).is_some()
}

/// True if a directory with this name should be skipped while walking sources.
pub fn is_skip_dir(name: &str) -> (r: bool)
    ensures
        r == is_skip_dir_spec(name@),
{
    let global: Vec<&'static str> = vec![".smartgrep", "target"];
    assert(strs(global@) =~= global_skip_dirs());
    if str_in(&global, name) {
        return true;
    }
    let langs = languages();
    let mut i: usize = 0;
    while i < langs.len()
        invariant
            i <= langs.len(),
            langs@.len() == registry().len(),
            forall|j: int| 0 <= j < langs@.len() ==> #[trigger] langs@[j].spec() == registry()[j],
            forall|j: int| 0 <= j < i ==> !(#[trigger] registry()[j]).skip_dirs.contains(name@),
        decreases langs.len() - i,
    {
        assert(langs@[i as int].spec() == registry()[i as int]);
        if str_in(&langs[i].skip_dirs, name) {
            return true;
        }
        i += 1;
    }
    false
}

/// True if any directory component of `path` is a skipped directory.
pub fn is_in_skipped_dir(path: &str) -> (r: bool)
    ensures
        r == is_in_skipped_dir_spec(path@),
{
    let comps = path_components(path);
    if comps.len() == 0 {
        return false;
    }
    let mut i: usize = 0;
    while i + 1 < comps.len()
        invariant
            i + 1 <= comps.len(),
            views(comps@) == components(path@),
            forall|j: int| 0 <= j < i ==> !is_skip_dir_spec(#[trigger] components(path@)[j]),
        decreases comps.len() - i,
    {
        assert(views(comps@)[i as int] == comps@[i as int]@);
        if is_skip_dir(comps[i].as_str()) {
            return true;
        }
        i += 1;
    }
    false
}

/// Every project marker file name across all languages.
pub fn project_markers() -> (r: Vec<&'static str>)
    ensures
        strs(r@) == all_markers_upto(registry().len() as int),
{
    let langs = languages();
    let mut out: Vec<&'static str> = Vec::new();
    let mut i: usize = 0;
    assert(strs(out@) =~= all_markers_upto(0));
    while i < langs.len()
        invariant
            i <= langs.len(),
            langs@.len() == registry().len(),
            forall|j: int| 0 <= j < langs@.len() ==> #[trigger] langs@[j].spec() == registry()[j],
            strs(out@) == all_markers_upto(i as int),
        decreases langs.len() - i,
    {
        assert(langs@[i as int].spec() == registry()[i as int]);
        let ms = &langs[i].project_markers;
        let ghost before = out@;
        let mut k: usize = 0;
        while k < ms.len()
            invariant
                k <= ms.len(),
                out@ == before + ms@.take(k as int),
            decreases ms.len() - k,
        {
            out.push(ms[k]);
            assert(ms@.take(k + 1) =~= ms@.take(k as int).push(ms@[k as int]));
            k += 1;
        }
        assert(ms@.take(ms.len() as int) =~= ms@);
        assert(strs(out@) =~= strs(before) + strs(ms@));
        i += 1;
    }
    out
}

/// Human-readable list of supported extensions: `.rs, .java, .go, ...`.
pub fn supported_extensions_display() -> (r: String)
    ensures
        r@ == extensions_display_spec(),
{
    let langs = languages();
    let mut out = String::new();
    let mut first = true;
    let ghost mut parts: Seq<Seq<char>> = seq![];
    let mut i: usize = 0;
    while i < langs.len()
        invariant
            i <= langs.len(),
            langs@.len() == registry().len(),
            forall|j: int| 0 <= j < langs@.len() ==> #[trigger] langs@[j].spec() == registry()[j],
            parts == all_extensions_upto(i as int).map_values(|e: Seq<char>| "."@ + e),
            out@ == join(parts, ", "@),
            first == (parts.len() == 0),
        decreases langs.len() - i,
    {
        assert(langs@[i as int].spec() == registry()[i as int]);
        let es = &langs[i].extensions;
        let ghost before = parts;
        let mut k: usize = 0;
        while k < es.len()
            invariant
                k <= es.len(),
                parts == before + strs(es@).take(k as int).map_values(|e: Seq<char>| "."@ + e),
                out@ == join(parts, ", "@),
                first == (parts.len() == 0),
            decreases es.len() - k,
        {
            proof {
                crate::text::lemma_join_push(parts, ", "@, "."@ + es@[k as int]@);
            }
            if !first {
                push_str(&mut out, ", ");
            }
            push_str(&mut out, ".");
            push_str(&mut out, es[k]);
            proof {
                assert(out@ =~= join(parts, ", "@) + (if parts.len() == 0 { Seq::<char>::empty() } else { ", "@ }) + ("."@ + es@[k as int]@));
                if parts.len() == 0 {
                    assert(join(parts.push("."@ + es@[k as int]@), ", "@) =~= "."@ + es@[k as int]@);
                    assert(join(parts, ", "@) == Seq::<char>::empty());
                }
                parts = parts.push("."@ + es@[k as int]@);
                assert(strs(es@).take(k + 1).map_values(|e: Seq<char>| "."@ + e) =~= strs(es@).take(k as int).map_values(|e: Seq<char>| "."@ + e).push("."@ + es@[k as int]@));
            }
            first = false;
            k += 1;
        }
        proof {
            assert(strs(es@).take(es.len() as int) =~= strs(es@));
            assert(all_extensions_upto(i + 1) == all_extensions_upto(i as int) + strs(es@));
            assert(all_extensions_upto(i + 1).map_values(|e: Seq<char>| "."@ + e) =~= all_extensions_upto(i as int).map_values(|e: Seq<char>| "."@ + e) + strs(es@).map_values(|e: Seq<char>| "."@ + e));
        }
        i += 1;
    }
    out
}

} // verus!
