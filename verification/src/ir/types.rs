//! The intermediate representation: symbols and dependencies extracted from
//! source files, language-agnostic. Kinds are kept in each language's own
//! vocabulary (`fn`, `func`, `function`, `def`, `class`, ...).

use vstd::prelude::*;

use crate::text::{lowercase, owned, push_str, str_eq, to_lower};

verus! {

/// The umbrella kinds a query source or `ls` argument can name.
#[derive(Debug, Clone, Copy, PartialEq, Eq, Structural)]
pub enum SymbolKind {
    Function,
    Method,
    Struct,
    Enum,
    Trait,
    Impl,
    Const,
    TypeAlias,
    Module,
}

/// Visibility of a symbol.
#[derive(Debug, Clone, Copy, PartialEq, Eq, Structural)]
pub enum Visibility {
    Public,
    Crate,
    Private,
}

/// A source location: `/`-separated file path plus 1-based line and column.
#[derive(Debug)]
pub struct SourceLoc {
    pub file: String,
    pub line: usize,
    pub col: usize,
}

/// A struct/class/enum field.
#[derive(Debug)]
pub struct Field {
    pub name: String,
    pub type_str: String,
    pub visibility: Visibility,
}

/// A function/method parameter.
#[derive(Debug)]
pub struct Param {
    pub name: String,
    pub type_str: String,
}

/// A symbol extracted from source code.
#[derive(Debug)]
pub struct Symbol {
    pub name: String,
    pub qualified_name: String,
    /// Language-native kind (`fn`, `func`, `class`, `method`, ...).
    pub kind: String,
    pub loc: SourceLoc,
    pub visibility: Visibility,
    pub signature: Option<String>,
    pub parent: Option<String>,
    pub attributes: Vec<String>,
    pub fields: Vec<Field>,
    pub params: Vec<Param>,
    pub return_type: Option<String>,
}

/// The kind of dependency between symbols.
#[derive(Debug, Clone, Copy, PartialEq, Eq, Structural)]
pub enum DepKind {
    Import,
    Call,
    TypeRef,
    Implements,
    FieldType,
}

/// A dependency from one symbol to another.
#[derive(Debug)]
pub struct Dependency {
    pub from_qualified: String,
    pub to_name: String,
    pub kind: DepKind,
    pub loc: SourceLoc,
}

/// The symbols and dependencies extracted from a set of source files.
#[derive(Debug)]
pub struct Ir {
    pub symbols: Vec<Symbol>,
    pub dependencies: Vec<Dependency>,
}

fn clone_strings(v: &Vec<String>) -> (r: Vec<String>)
    ensures
        r@ == v@,
{
    let r = v.clone();
    assert(r@ =~= v@);
    r
}

fn clone_opt(o: &Option<String>) -> (r: Option<String>)
    ensures
        r == *o,
{
    match o {
        Some(s) => Some(s.clone()),
        None => None,
    }
}

impl Clone for SourceLoc {
    fn clone(&self) -> (r: Self)
        ensures
            r == *self,
    {
        SourceLoc { file: self.file.clone(), line: self.line, col: self.col }
    }
}

impl Clone for Field {
    fn clone(&self) -> (r: Self)
        ensures
            r == *self,
    {
        Field { name: self.name.clone(), type_str: self.type_str.clone(), visibility: self.visibility }
    }
}

impl Clone for Param {
    fn clone(&self) -> (r: Self)
        ensures
            r == *self,
    {
        Param { name: self.name.clone(), type_str: self.type_str.clone() }
    }
}

/// Two symbols agree field by field (lists compared by their contents).
pub open spec fn same_symbol(a: Symbol, b: Symbol) -> bool {
    &&& a.name@ == b.name@
    &&& a.qualified_name@ == b.qualified_name@
    &&& a.kind@ == b.kind@
    &&& a.loc == b.loc
    &&& a.visibility == b.visibility
    &&& a.signature == b.signature
    &&& a.parent == b.parent
    &&& a.attributes@ == b.attributes@
    &&& a.fields@ == b.fields@
    &&& a.params@ == b.params@
    &&& a.return_type == b.return_type
}

impl Clone for Symbol {
    fn clone(&self) -> (r: Self)
        ensures
            same_symbol(r, *self),
    {
        let fields = self.fields.clone();
        assert forall|i: int| 0 <= i < fields.len() implies fields@[i] == self.fields@[i] by {
            assert(cloned::<Field>(self.fields@[i], fields@[i]));
        }
        assert(fields@ =~= self.fields@);
        let params = self.params.clone();
        assert forall|i: int| 0 <= i < params.len() implies params@[i] == self.params@[i] by {
            assert(cloned::<Param>(self.params@[i], params@[i]));
        }
        assert(params@ =~= self.params@);
        Symbol {
            name: self.name.clone(),
            qualified_name: self.qualified_name.clone(),
            kind: self.kind.clone(),
            loc: self.loc.clone(),
            visibility: self.visibility,
            signature: clone_opt(&self.signature),
            parent: clone_opt(&self.parent),
            attributes: clone_strings(&self.attributes),
            fields,
            params,
            return_type: clone_opt(&self.return_type),
        }
    }
}

/// Copies of a list of symbols, agreeing one by one.
pub fn clone_symbols(v: &Vec<Symbol>) -> (r: Vec<Symbol>)
    ensures
        r@.len() == v@.len(),
        forall|i: int| 0 <= i < v@.len() ==> same_symbol(#[trigger] r@[i], v@[i]),
{
    let mut r: Vec<Symbol> = Vec::new();
    let mut i: usize = 0;
    while i < v.len()
        invariant
            i <= v.len(),
            r@.len() == i,
            forall|j: int| 0 <= j < i ==> same_symbol(#[trigger] r@[j], v@[j]),
        decreases v.len() - i,
    {
        r.push(v[i].clone());
        i += 1;
    }
    r
}

impl Clone for Dependency {
    fn clone(&self) -> (r: Self)
        ensures
            r == *self,
    {
        Dependency {
            from_qualified: self.from_qualified.clone(),
            to_name: self.to_name.clone(),
            kind: self.kind,
            loc: self.loc.clone(),
        }
    }
}

impl Clone for Ir {
    fn clone(&self) -> (r: Self)
        ensures
            r.symbols@.len() == self.symbols@.len(),
            forall|i: int| 0 <= i < self.symbols@.len() ==> same_symbol(#[trigger] r.symbols@[i], self.symbols@[i]),
            r.dependencies@ == self.dependencies@,
    {
        let symbols = clone_symbols(&self.symbols);
        let dependencies = self.dependencies.clone();
        assert forall|i: int| 0 <= i < dependencies.len() implies dependencies@[i] == self.dependencies@[i] by {
            assert(cloned::<Dependency>(self.dependencies@[i], dependencies@[i]));
        }
        assert(dependencies@ =~= self.dependencies@);
        Ir { symbols, dependencies }
    }
}

/// Display name of a symbol kind (`fn`, `method`, `struct`, ...).
pub open spec fn symbol_kind_name(k: SymbolKind) -> Seq<char> {
    match k {
        SymbolKind::Function => "fn"@,
        SymbolKind::Method => "method"@,
        SymbolKind::Struct => "struct"@,
        SymbolKind::Enum => "enum"@,
        SymbolKind::Trait => "trait"@,
        SymbolKind::Impl => "impl"@,
        SymbolKind::Const => "const"@,
        SymbolKind::TypeAlias => "type"@,
        SymbolKind::Module => "mod"@,
    }
}

/// The terms (already lower-cased) that name a symbol kind.
pub open spec fn symbol_kind_of_term(t: Seq<char>) -> Option<SymbolKind> {
    if t == "functions"@ || t == "function"@ || t == "fn"@ {
        Some(SymbolKind::Function)
    } else if t == "methods"@ || t == "method"@ {
        Some(SymbolKind::Method)
    } else if t == "structs"@ || t == "struct"@ {
        Some(SymbolKind::Struct)
    } else if t == "enums"@ || t == "enum"@ {
        Some(SymbolKind::Enum)
    } else if t == "traits"@ || t == "trait"@ || t == "interfaces"@ || t == "interface"@ {
        Some(SymbolKind::Trait)
    } else if t == "impls"@ || t == "impl"@ {
        Some(SymbolKind::Impl)
    } else if t == "consts"@ || t == "const"@ {
        Some(SymbolKind::Const)
    } else if t == "types"@ || t == "type"@ {
        Some(SymbolKind::TypeAlias)
    } else if t == "modules"@ || t == "module"@ || t == "mod"@ {
        Some(SymbolKind::Module)
    } else {
        None
    }
}

/// The language-native kinds an umbrella kind covers: `Function` spans the free
/// functions of every language, `Trait` also covers interfaces, `Module` also
/// covers namespaces.
pub open spec fn native_kinds(k: SymbolKind) -> Seq<Seq<char>> {
    match k {
        SymbolKind::Function => seq!["fn"@, "func"@, "function"@, "def"@],
        SymbolKind::Method => seq!["method"@],
        SymbolKind::Struct => seq!["struct"@],
        SymbolKind::Enum => seq!["enum"@],
        SymbolKind::Trait => seq!["trait"@, "interface"@],
        SymbolKind::Impl => seq!["impl"@],
        SymbolKind::Const => seq!["const"@],
        SymbolKind::TypeAlias => seq!["type"@],
        SymbolKind::Module => seq!["mod"@, "namespace"@],
    }
}

pub open spec fn dep_kind_name(k: DepKind) -> Seq<char> {
    match k {
        DepKind::Import => "import"@,
        DepKind::Call => "call"@,
        DepKind::TypeRef => "type_ref"@,
        DepKind::Implements => "implements"@,
        DepKind::FieldType => "field_type"@,
    }
}

pub open spec fn visibility_name(v: Visibility) -> Seq<char> {
    match v {
        Visibility::Public => "public"@,
        Visibility::Crate => "crate"@,
        Visibility::Private => "private"@,
    }
}

impl SymbolKind {
    /// The kind's display name (`fn`, `struct`, `type`, ...).
    pub fn name(&self) -> (r: &'static str)
        ensures
            r@ == symbol_kind_name(*self),
    {
        match self {
            SymbolKind::Function => "fn",
            SymbolKind::Method => "method",
            SymbolKind::Struct => "struct",
            SymbolKind::Enum => "enum",
            SymbolKind::Trait => "trait",
            SymbolKind::Impl => "impl",
            SymbolKind::Const => "const",
            SymbolKind::TypeAlias => "type",
            SymbolKind::Module => "mod",
        }
    }

    /// Parse a kind term, case-insensitively (`structs`, `Function`, ...).
    /// The error names the unknown term.
    pub fn from_term(s: &str) -> (r: Result<SymbolKind, String>)
        ensures
            symbol_kind_of_term(lowercase(s@)) matches Some(k) ==> r == Ok::<SymbolKind, String>(k),
            symbol_kind_of_term(lowercase(s@)) is None ==> r is Err,
    {
        let t = to_lower(s);
        let t = t.as_str();
        if str_eq(t, "functions") || str_eq(t, "function") || str_eq(t, "fn") {
            Ok(SymbolKind::Function)
        } else if str_eq(t, "methods") || str_eq(t, "method") {
            Ok(SymbolKind::Method)
        } else if str_eq(t, "structs") || str_eq(t, "struct") {
            Ok(SymbolKind::Struct)
        } else if str_eq(t, "enums") || str_eq(t, "enum") {
            Ok(SymbolKind::Enum)
        } else if str_eq(t, "traits") || str_eq(t, "trait") || str_eq(t, "interfaces") || str_eq(
            t,
            "interface",
        ) {
            Ok(SymbolKind::Trait)
        } else if str_eq(t, "impls") || str_eq(t, "impl") {
            Ok(SymbolKind::Impl)
        } else if str_eq(t, "consts") || str_eq(t, "const") {
            Ok(SymbolKind::Const)
        } else if str_eq(t, "types") || str_eq(t, "type") {
            Ok(SymbolKind::TypeAlias)
        } else if str_eq(t, "modules") || str_eq(t, "module") || str_eq(t, "mod") {
            Ok(SymbolKind::Module)
        } else {
            let mut msg = owned("unknown symbol kind '");
            push_str(&mut msg, s);
            push_str(&mut msg, "'");
            Err(msg)
        }
    }

    /// The language-native kinds this umbrella kind covers.
    pub fn native_kinds(&self) -> (r: Vec<&'static str>)
        ensures
            r@.map_values(|s: &str| s@) == native_kinds(*self),
    {
        let r = match self {
            SymbolKind::Function => vec!["fn", "func", "function", "def"],
            SymbolKind::Method => vec!["method"],
            SymbolKind::Struct => vec!["struct"],
            SymbolKind::Enum => vec!["enum"],
            SymbolKind::Trait => vec!["trait", "interface"],
            SymbolKind::Impl => vec!["impl"],
            SymbolKind::Const => vec!["const"],
            SymbolKind::TypeAlias => vec!["type"],
            SymbolKind::Module => vec!["mod", "namespace"],
        };
        assert(r@.map_values(|s: &str| s@) =~= native_kinds(*self));
        r
    }
}

impl DepKind {
    /// The dependency kind's display name (`import`, `call`, `type_ref`, ...).
    pub fn name(&self) -> (r: &'static str)
        ensures
            r@ == dep_kind_name(*self),
    {
        match self {
            DepKind::Import => "import",
            DepKind::Call => "call",
            DepKind::TypeRef => "type_ref",
            DepKind::Implements => "implements",
            DepKind::FieldType => "field_type",
        }
    }
}

impl Visibility {
    /// `public`, `crate` or `private`.
    pub fn name(&self) -> (r: &'static str)
        ensures
            r@ == visibility_name(*self),
    {
        match self {
            Visibility::Public => "public",
            Visibility::Crate => "crate",
            Visibility::Private => "private",
        }
    }
}

impl Symbol {
    /// Create a new Symbol with the required fields, defaulting optional fields.
    pub fn new(
        name: String,
        qualified_name: String,
        kind: String,
        loc: SourceLoc,
        visibility: Visibility,
    ) -> (r: Symbol)
        ensures
            r.name == name,
            r.qualified_name == qualified_name,
            r.kind == kind,
            r.loc == loc,
            r.visibility == visibility,
            r.signature is None,
            r.parent is None,
            r.attributes@.len() == 0,
            r.fields@.len() == 0,
            r.params@.len() == 0,
            r.return_type is None,
    {
        Symbol {
            name,
            qualified_name,
            kind,
            loc,
            visibility,
            signature: None,
            parent: None,
            attributes: Vec::new(),
            fields: Vec::new(),
            params: Vec::new(),
            return_type: None,
        }
    }
}

impl Ir {
    /// An IR with no symbols and no dependencies.
    pub fn new() -> (r: Ir)
        ensures
            r.symbols@.len() == 0,
            r.dependencies@.len() == 0,
    {
        Ir { symbols: Vec::new(), dependencies: Vec::new() }
    }
}

} // verus!
