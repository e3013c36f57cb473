//! The Code Property Graph: one node set carrying typed edge overlays (AST,
//! control flow, data flow, program dependence) over a single edge list.

use vstd::prelude::*;

verus! {

/// Identifier of a node: its index in the graph's node list.
#[derive(Clone, Copy, PartialEq, Eq, Structural, Debug, Hash, PartialOrd, Ord)]
pub struct NodeId(pub u32);

impl NodeId {
    /// Wraps a raw index.
    pub fn new(raw: u32) -> (r: NodeId)
        ensures
            r.0 == raw,
    {
        NodeId(raw)
    }

    /// The raw index.
    pub fn as_u32(&self) -> (r: u32)
        ensures
            r == self.0,
    {
        self.0
    }
}

/// Lexical scope identifier.
#[derive(Clone, Copy, PartialEq, Eq, Structural, Debug, Hash)]
pub struct ScopeId(pub u32);

impl ScopeId {
    /// The global scope.
    pub fn global() -> (r: ScopeId)
        ensures
            r.0 == 0,
    {
        ScopeId(0)
    }
}

/// Byte range of a node in its source text.
#[derive(Clone, Copy, PartialEq, Eq, Structural, Debug)]
pub struct SourceRange {
    /// First byte.
    pub start: u32,
    /// One past the last byte.
    pub end: u32,
}

impl Default for SourceRange {
    /// The empty range at the start.
    fn default() -> (r: SourceRange)
        ensures
            r.start == 0,
            r.end == 0,
    {
        SourceRange { start: 0, end: 0 }
    }
}

impl SourceRange {
    /// A range from two byte offsets.
    pub fn from_bytes(start: u32, end: u32) -> (r: SourceRange)
        ensures
            r.start == start,
            r.end == end,
    {
        SourceRange { start, end }
    }
}

/// Source languages known to the library.
#[derive(Clone, Copy, PartialEq, Eq, Structural, Debug, Hash)]
pub enum Language {
    Rust,
    Python,
    JavaScript,
    TypeScript,
    Go,
    Java,
    C,
    Cpp,
    Ruby,
    Bash,
    Json,
    Yaml,
    Toml,
    Html,
    Css,
    Markdown,
    Rholang,
    MeTTa,
    Zig,
    Unknown,
}

/// The display name of a language.
pub open spec fn language_name(l: Language) -> Seq<char> {
    match l {
        Language::Rust => "Rust"@,
        Language::Python => "Python"@,
        Language::JavaScript => "JavaScript"@,
        Language::TypeScript => "TypeScript"@,
        Language::Go => "Go"@,
        Language::Java => "Java"@,
        Language::C => "C"@,
        Language::Cpp => "C++"@,
        Language::Ruby => "Ruby"@,
        Language::Bash => "Bash"@,
        Language::Json => "JSON"@,
        Language::Yaml => "YAML"@,
        Language::Toml => "TOML"@,
        Language::Html => "HTML"@,
        Language::Css => "CSS"@,
        Language::Markdown => "Markdown"@,
        Language::Rholang => "Rholang"@,
        Language::MeTTa => "MeTTa"@,
        Language::Zig => "Zig"@,
        Language::Unknown => "Unknown"@,
    }
}

/// The language a file extension (without the dot) denotes.
pub open spec fn language_of_extension(e: Seq<char>) -> Language {
    if e == "rs"@ {
        Language::Rust
    } else if e == "py"@ || e == "pyi"@ {
        Language::Python
    } else if e == "js"@ || e == "mjs"@ || e == "cjs"@ || e == "jsx"@ {
        Language::JavaScript
    } else if e == "ts"@ || e == "tsx"@ || e == "mts"@ || e == "cts"@ {
        Language::TypeScript
    } else if e == "go"@ {
        Language::Go
    } else if e == "java"@ {
        Language::Java
    } else if e == "c"@ || e == "h"@ {
        Language::C
    } else if e == "cpp"@ || e == "cc"@ || e == "cxx"@ || e == "hpp"@ || e == "hh"@ || e == "hxx"@ {
        Language::Cpp
    } else if e == "rb"@ {
        Language::Ruby
    } else if e == "sh"@ || e == "bash"@ {
        Language::Bash
    } else if e == "json"@ {
        Language::Json
    } else if e == "yaml"@ || e == "yml"@ {
        Language::Yaml
    } else if e == "toml"@ {
        Language::Toml
    } else if e == "html"@ || e == "htm"@ {
        Language::Html
    } else if e == "css"@ {
        Language::Css
    } else if e == "md"@ || e == "markdown"@ {
        Language::Markdown
    } else if e == "rho"@ {
        Language::Rholang
    } else if e == "metta"@ {
        Language::MeTTa
    } else if e == "zig"@ {
        Language::Zig
    } else {
        Language::Unknown
    }
}

impl Language {
    /// The display name of the language.
    pub fn name(&self) -> (r: &'static str)
        ensures
            r@ == language_name(*self),
    {
        match self {
            Language::Rust => "Rust",
            Language::Python => "Python",
            Language::JavaScript => "JavaScript",
            Language::TypeScript => "TypeScript",
            Language::Go => "Go",
            Language::Java => "Java",
            Language::C => "C",
            Language::Cpp => "C++",
            Language::Ruby => "Ruby",
            Language::Bash => "Bash",
            Language::Json => "JSON",
            Language::Yaml => "YAML",
            Language::Toml => "TOML",
            Language::Html => "HTML",
            Language::Css => "CSS",
            Language::Markdown => "Markdown",
            Language::Rholang => "Rholang",
            Language::MeTTa => "MeTTa",
            Language::Zig => "Zig",
            Language::Unknown => "Unknown",
        }
    }

    /// The language a file extension (without the dot) denotes; `Unknown` for
    /// an extension of no known language.
    pub fn from_extension(ext: &str) -> (r: Language)
        ensures
            r == language_of_extension(ext@),
    {
        let is = |x: &str| -> (b: bool) ensures b == (ext@ == x@) { crate::text::str_eq(ext, x) };
        if is("rs") {
            Language::Rust
        } else if is("py") || is("pyi") {
            Language::Python
        } else if is("js") || is("mjs") || is("cjs") || is("jsx") {
            Language::JavaScript
        } else if is("ts") || is("tsx") || is("mts") || is("cts") {
            Language::TypeScript
        } else if is("go") {
            Language::Go
        } else if is("java") {
            Language::Java
        } else if is("c") || is("h") {
            Language::C
        } else if is("cpp") || is("cc") || is("cxx") || is("hpp") || is("hh") || is("hxx") {
            Language::Cpp
        } else if is("rb") {
            Language::Ruby
        } else if is("sh") || is("bash") {
            Language::Bash
        } else if is("json") {
            Language::Json
        } else if is("yaml") || is("yml") {
            Language::Yaml
        } else if is("toml") {
            Language::Toml
        } else if is("html") || is("htm") {
            Language::Html
        } else if is("css") {
            Language::Css
        } else if is("md") || is("markdown") {
            Language::Markdown
        } else if is("rho") {
            Language::Rholang
        } else if is("metta") {
            Language::MeTTa
        } else if is("zig") {
            Language::Zig
        } else {
            Language::Unknown
        }
    }
}

/// Declared visibility of an item.
#[derive(Clone, Copy, PartialEq, Eq, Structural, Debug, Hash)]
pub enum Visibility {
    Public,
    Private,
    Protected,
    Package,
}

/// A named type.
#[derive(Clone, Debug)]
pub struct TypeInfo {
    /// Type text.
    pub name: String,
}

impl TypeInfo {
    /// A type with the given name.
    pub fn new(name: String) -> (r: TypeInfo)
        ensures
            r.name@ == name@,
    {
        TypeInfo { name }
    }
}

/// The signature of a function or method.
#[derive(Clone, Debug)]
pub struct MethodSignature {
    /// Function name.
    pub name: String,
    /// Parameter names.
    pub params: Vec<String>,
    /// Declared return type.
    pub return_type: Option<TypeInfo>,
    /// Static (class-level) method.
    pub is_static: bool,
    /// Asynchronous function.
    pub is_async: bool,
    /// Declared visibility.
    pub visibility: Visibility,
}

/// Kinds of literal values. A float literal keeps its source spelling.
#[derive(Clone, Debug)]
pub enum LiteralKind {
    Integer(i64),
    Float(String),
    String(String),
    Char(char),
    Bool(bool),
    Null,
    Array,
    Object,
    Regex(String),
}

/// Node kinds of the unified graph.
#[derive(Clone, Debug)]
pub enum CpgNodeKind {
    Root,
    Module { name: String },
    Class { name: String, is_abstract: bool },
    Struct { name: String },
    Enum { name: String },
    Trait { name: String },
    Impl { for_type: Option<String>, trait_name: Option<String> },
    Function { signature: MethodSignature },
    Lambda { captures: Vec<NodeId> },
    Parameter { name: String, param_type: Option<TypeInfo>, is_variadic: bool },
    Block { scope: ScopeId },
    Variable { name: String, var_type: Option<TypeInfo>, scope: ScopeId, is_mutable: bool },
    Field { name: String, field_type: Option<TypeInfo>, visibility: Visibility },
    If,
    Else,
    While,
    For,
    Loop,
    Match,
    MatchArm,
    Return,
    Break,
    Continue,
    Try,
    Catch,
    Finally,
    Throw,
    Yield,
    Await,
    BinaryOp { operator: String },
    UnaryOp { operator: String },
    Assignment { operator: String },
    Call { target: Option<NodeId>, is_method: bool },
    MemberAccess { member: String },
    IndexAccess,
    Identifier { name: String, definition: Option<NodeId> },
    Literal { kind: LiteralKind },
    Import { path: String },
    Attribute { name: String },
    Macro { name: String },
    Comment { is_doc: bool },
    TypeAnnotation { type_info: TypeInfo },
    GenericParam { name: String },
    Error { message: String },
    Unknown { kind: String },
}

/// A literal kind as mathematical values.
pub enum LiteralView {
    Integer(i64),
    Float(Seq<char>),
    String(Seq<char>),
    Char(char),
    Bool(bool),
    Null,
    Array,
    Object,
    Regex(Seq<char>),
}

/// A signature as mathematical values.
pub struct SignatureView {
    pub name: Seq<char>,
    pub params: Seq<Seq<char>>,
    pub return_type: Option<Seq<char>>,
    pub is_static: bool,
    pub is_async: bool,
    pub visibility: Visibility,
}

/// A node kind as mathematical values: every string by its text, a type by its name.
pub enum KindView {
    Root,
    Module(Seq<char>),
    Class(Seq<char>, bool),
    Struct(Seq<char>),
    Enum(Seq<char>),
    Trait(Seq<char>),
    Impl(Option<Seq<char>>, Option<Seq<char>>),
    Function(SignatureView),
    Lambda(Seq<NodeId>),
    Parameter(Seq<char>, Option<Seq<char>>, bool),
    Block(ScopeId),
    Variable(Seq<char>, Option<Seq<char>>, ScopeId, bool),
    Field(Seq<char>, Option<Seq<char>>, Visibility),
    If,
    Else,
    While,
    For,
    Loop,
    Match,
    MatchArm,
    Return,
    Break,
    Continue,
    Try,
    Catch,
    Finally,
    Throw,
    Yield,
    Await,
    BinaryOp(Seq<char>),
    UnaryOp(Seq<char>),
    Assignment(Seq<char>),
    Call(Option<NodeId>, bool),
    MemberAccess(Seq<char>),
    IndexAccess,
    Identifier(Seq<char>, Option<NodeId>),
    Literal(LiteralView),
    Import(Seq<char>),
    Attribute(Seq<char>),
    Macro(Seq<char>),
    Comment(bool),
    TypeAnnotation(Seq<char>),
    GenericParam(Seq<char>),
    Error(Seq<char>),
    Unknown(Seq<char>),
}

/// An optional type, by its name.
pub open spec fn type_view(t: Option<TypeInfo>) -> Option<Seq<char>> {
    match t {
        Some(ti) => Some(ti.name@),
        None => None,
    }
}

/// An optional string, by its text.
pub open spec fn opt_view(s: Option<String>) -> Option<Seq<char>> {
    match s {
        Some(x) => Some(x@),
        None => None,
    }
}

impl View for LiteralKind {
    type V = LiteralView;

    open spec fn view(&self) -> LiteralView {
        match self {
            LiteralKind::Integer(v) => LiteralView::Integer(*v),
            LiteralKind::Float(s) => LiteralView::Float(s@),
            LiteralKind::String(s) => LiteralView::String(s@),
            LiteralKind::Char(c) => LiteralView::Char(*c),
            LiteralKind::Bool(b) => LiteralView::Bool(*b),
            LiteralKind::Null => LiteralView::Null,
            LiteralKind::Array => LiteralView::Array,
            LiteralKind::Object => LiteralView::Object,
            LiteralKind::Regex(s) => LiteralView::Regex(s@),
        }
    }
}

impl View for MethodSignature {
    type V = SignatureView;

    open spec fn view(&self) -> SignatureView {
        SignatureView {
            name: self.name@,
            params: self.params@.map_values(|p: String| p@),
            return_type: type_view(self.return_type),
            is_static: self.is_static,
            is_async: self.is_async,
            visibility: self.visibility,
        }
    }
}

impl View for CpgNodeKind {
    type V = KindView;

    open spec fn view(&self) -> KindView {
        match self {
            CpgNodeKind::Root => KindView::Root,
            CpgNodeKind::Module { name } => KindView::Module(name@),
            CpgNodeKind::Class { name, is_abstract } => KindView::Class(name@, *is_abstract),
            CpgNodeKind::Struct { name } => KindView::Struct(name@),
            CpgNodeKind::Enum { name } => KindView::Enum(name@),
            CpgNodeKind::Trait { name } => KindView::Trait(name@),
            CpgNodeKind::Impl { for_type, trait_name } => KindView::Impl(opt_view(*for_type), opt_view(*trait_name)),
            CpgNodeKind::Function { signature } => KindView::Function(signature@),
            CpgNodeKind::Lambda { captures } => KindView::Lambda(captures@),
            CpgNodeKind::Parameter { name, param_type, is_variadic } =>
                KindView::Parameter(name@, type_view(*param_type), *is_variadic),
            CpgNodeKind::Block { scope } => KindView::Block(*scope),
            CpgNodeKind::Variable { name, var_type, scope, is_mutable } =>
                KindView::Variable(name@, type_view(*var_type), *scope, *is_mutable),
            CpgNodeKind::Field { name, field_type, visibility } =>
                KindView::Field(name@, type_view(*field_type), *visibility),
            CpgNodeKind::If => KindView::If,
            CpgNodeKind::Else => KindView::Else,
            CpgNodeKind::While => KindView::While,
            CpgNodeKind::For => KindView::For,
            CpgNodeKind::Loop => KindView::Loop,
            CpgNodeKind::Match => KindView::Match,
            CpgNodeKind::MatchArm => KindView::MatchArm,
            CpgNodeKind::Return => KindView::Return,
            CpgNodeKind::Break => KindView::Break,
            CpgNodeKind::Continue => KindView::Continue,
            CpgNodeKind::Try => KindView::Try,
            CpgNodeKind::Catch => KindView::Catch,
            CpgNodeKind::Finally => KindView::Finally,
            CpgNodeKind::Throw => KindView::Throw,
            CpgNodeKind::Yield => KindView::Yield,
            CpgNodeKind::Await => KindView::Await,
            CpgNodeKind::BinaryOp { operator } => KindView::BinaryOp(operator@),
            CpgNodeKind::UnaryOp { operator } => KindView::UnaryOp(operator@),
            CpgNodeKind::Assignment { operator } => KindView::Assignment(operator@),
            CpgNodeKind::Call { target, is_method } => KindView::Call(*target, *is_method),
            CpgNodeKind::MemberAccess { member } => KindView::MemberAccess(member@),
            CpgNodeKind::IndexAccess => KindView::IndexAccess,
            CpgNodeKind::Identifier { name, definition } => KindView::Identifier(name@, *definition),
            CpgNodeKind::Literal { kind } => KindView::Literal(kind@),
            CpgNodeKind::Import { path } => KindView::Import(path@),
            CpgNodeKind::Attribute { name } => KindView::Attribute(name@),
            CpgNodeKind::Macro { name } => KindView::Macro(name@),
            CpgNodeKind::Comment { is_doc } => KindView::Comment(*is_doc),
            CpgNodeKind::TypeAnnotation { type_info } => KindView::TypeAnnotation(type_info.name@),
            CpgNodeKind::GenericParam { name } => KindView::GenericParam(name@),
            CpgNodeKind::Error { message } => KindView::Error(message@),
            CpgNodeKind::Unknown { kind } => KindView::Unknown(kind@),
        }
    }
}

/// Control-flow edge labels.
#[derive(Clone, Copy, PartialEq, Eq, Structural, Debug, Hash)]
pub enum CfgEdgeKind {
    Sequential,
    ConditionalTrue,
    ConditionalFalse,
    LoopBack,
    LoopExit,
    Break,
    Continue,
    Return,
    Case,
    Default,
    Call,
    Throw,
    Catch,
    Finally,
}

impl CfgEdgeKind {
    /// A branch decided by a condition or a case selection.
    pub open spec fn spec_is_conditional(&self) -> bool {
        *self == CfgEdgeKind::ConditionalTrue || *self == CfgEdgeKind::ConditionalFalse
            || *self == CfgEdgeKind::Case || *self == CfgEdgeKind::Default
    }

    /// An edge that closes or leaves a loop.
    pub open spec fn spec_is_loop(&self) -> bool {
        *self == CfgEdgeKind::LoopBack || *self == CfgEdgeKind::LoopExit
    }

    /// See [`Self::spec_is_conditional`].
    #[verifier::when_used_as_spec(spec_is_conditional)]
    pub fn is_conditional(&self) -> (r: bool)
        ensures
            r == self.spec_is_conditional(),
    {
        matches!(self, CfgEdgeKind::ConditionalTrue | CfgEdgeKind::ConditionalFalse | CfgEdgeKind::Case | CfgEdgeKind::Default)
    }

    /// See [`Self::spec_is_loop`].
    #[verifier::when_used_as_spec(spec_is_loop)]
    pub fn is_loop(&self) -> (r: bool)
        ensures
            r == self.spec_is_loop(),
    {
        matches!(self, CfgEdgeKind::LoopBack | CfgEdgeKind::LoopExit)
    }
}

/// Data-flow edge labels.
#[derive(Clone, Copy, PartialEq, Eq, Structural, Debug, Hash)]
pub enum DfgEdgeKind {
    DefUse,
    ReachingDef,
    Parameter,
    ReturnValue,
    FieldRead,
    FieldWrite,
    IndexRead,
    IndexWrite,
    DataDependency,
    Alias,
    Capture,
    Argument,
    Phi,
}

/// Edge labels of the unified graph.
#[derive(Clone, Copy, PartialEq, Eq, Structural, Debug, Hash)]
pub enum CpgEdgeKind {
    AstChild,
    ControlFlow(CfgEdgeKind),
    DataFlow(DfgEdgeKind),
    ControlDependence,
    DataDependence,
    CallSite,
    StaticCall,
    DynamicCall,
}

impl CpgEdgeKind {
    /// A control-flow edge.
    pub open spec fn spec_is_cfg(&self) -> bool {
        *self is ControlFlow
    }

    /// A data-flow edge.
    pub open spec fn spec_is_dfg(&self) -> bool {
        *self is DataFlow
    }

    /// A call-site-to-callee edge.
    pub open spec fn spec_is_call(&self) -> bool {
        *self == CpgEdgeKind::CallSite || *self == CpgEdgeKind::StaticCall || *self == CpgEdgeKind::DynamicCall
    }

    /// A program-dependence edge.
    pub open spec fn spec_is_pdg(&self) -> bool {
        *self == CpgEdgeKind::ControlDependence || *self == CpgEdgeKind::DataDependence
    }

    /// See [`Self::spec_is_cfg`].
    #[verifier::when_used_as_spec(spec_is_cfg)]
    pub fn is_cfg(&self) -> (r: bool)
        ensures
            r == self.spec_is_cfg(),
    {
        matches!(self, CpgEdgeKind::ControlFlow(_))
    }

    /// See [`Self::spec_is_dfg`].
    #[verifier::when_used_as_spec(spec_is_dfg)]
    pub fn is_dfg(&self) -> (r: bool)
        ensures
            r == self.spec_is_dfg(),
    {
        matches!(self, CpgEdgeKind::DataFlow(_))
    }

    /// See [`Self::spec_is_call`].
    #[verifier::when_used_as_spec(spec_is_call)]
    pub fn is_call(&self) -> (r: bool)
        ensures
            r == self.spec_is_call(),
    {
        matches!(self, CpgEdgeKind::CallSite | CpgEdgeKind::StaticCall | CpgEdgeKind::DynamicCall)
    }

    /// See [`Self::spec_is_pdg`].
    #[verifier::when_used_as_spec(spec_is_pdg)]
    pub fn is_pdg(&self) -> (r: bool)
        ensures
            r == self.spec_is_pdg(),
    {
        matches!(self, CpgEdgeKind::ControlDependence | CpgEdgeKind::DataDependence)
    }
}

/// A node of the graph.
#[derive(Clone, Debug)]
pub struct CpgNode {
    /// Its identifier (its index once added to a graph).
    pub id: NodeId,
    /// Its kind.
    pub kind: CpgNodeKind,
    /// Its source range.
    pub range: SourceRange,
    /// Its syntactic parent.
    pub parent: Option<NodeId>,
    /// Its syntactic children, as recorded by the builder.
    pub children: Vec<NodeId>,
}

impl CpgNode {
    /// A node with no parent and no children.
    pub fn new(id: NodeId, kind: CpgNodeKind, range: SourceRange) -> (r: CpgNode)
        ensures
            r.id == id,
            r.kind == kind,
            r.range == range,
            r.parent is None,
            r.children@.len() == 0,
    {
        CpgNode { id, kind, range, parent: None, children: Vec::new() }
    }

    /// The declared name of a named node, if any.
    pub open spec fn spec_name(&self) -> Option<Seq<char>> {
        match self.kind {
            CpgNodeKind::Module { name } => Some(name@),
            CpgNodeKind::Class { name, .. } => Some(name@),
            CpgNodeKind::Struct { name } => Some(name@),
            CpgNodeKind::Enum { name } => Some(name@),
            CpgNodeKind::Trait { name } => Some(name@),
            CpgNodeKind::Function { signature } => Some(signature.name@),
            CpgNodeKind::Parameter { name, .. } => Some(name@),
            CpgNodeKind::Variable { name, .. } => Some(name@),
            CpgNodeKind::Field { name, .. } => Some(name@),
            CpgNodeKind::Identifier { name, .. } => Some(name@),
            CpgNodeKind::Macro { name } => Some(name@),
            CpgNodeKind::Attribute { name } => Some(name@),
            CpgNodeKind::GenericParam { name } => Some(name@),
            _ => None,
        }
    }

    /// The declared name of a named node.
    pub fn name(&self) -> (r: Option<String>)
        ensures
            r matches Some(s) ==> self.spec_name() == Some(s@),
            r is None ==> self.spec_name() is None,
    {
        match &self.kind {
            CpgNodeKind::Module { name } => Some(name.clone()),
            CpgNodeKind::Class { name, .. } => Some(name.clone()),
            CpgNodeKind::Struct { name } => Some(name.clone()),
            CpgNodeKind::Enum { name } => Some(name.clone()),
            CpgNodeKind::Trait { name } => Some(name.clone()),
            CpgNodeKind::Function { signature } => Some(signature.name.clone()),
            CpgNodeKind::Parameter { name, .. } => Some(name.clone()),
            CpgNodeKind::Variable { name, .. } => Some(name.clone()),
            CpgNodeKind::Field { name, .. } => Some(name.clone()),
            CpgNodeKind::Identifier { name, .. } => Some(name.clone()),
            CpgNodeKind::Macro { name } => Some(name.clone()),
            CpgNodeKind::Attribute { name } => Some(name.clone()),
            CpgNodeKind::GenericParam { name } => Some(name.clone()),
            _ => None,
        }
    }
}

/// A directed, labelled edge.
#[derive(Clone, Copy, PartialEq, Eq, Structural, Debug)]
pub struct CpgEdge {
    /// Source node.
    pub source: NodeId,
    /// Target node.
    pub target: NodeId,
    /// Label.
    pub kind: CpgEdgeKind,
}

/// Counts of nodes and edges by overlay.
#[derive(Clone, Copy, PartialEq, Eq, Structural, Debug)]
pub struct CpgStats {
    pub node_count: usize,
    pub edge_count: usize,
    pub ast_edges: usize,
    pub cfg_edges: usize,
    pub dfg_edges: usize,
    pub pdg_edges: usize,
    pub call_edges: usize,
}

// ---------------------------------------------------------------------------
// Edge selections
// ---------------------------------------------------------------------------

/// The values `f` picks out of `edges`, in edge order.
pub open spec fn select<T>(edges: Seq<CpgEdge>, f: spec_fn(CpgEdge) -> Option<T>) -> Seq<T>
    decreases edges.len(),
{
    if edges.len() == 0 {
        Seq::empty()
    } else {
        let rest = select(edges.drop_last(), f);
        match f(edges.last()) {
            Some(x) => rest.push(x),
            None => rest,
        }
    }
}

/// Number of edges satisfying `p`.
pub open spec fn count_where(edges: Seq<CpgEdge>, p: spec_fn(CpgEdgeKind) -> bool) -> nat
    decreases edges.len(),
{
    if edges.len() == 0 {
        0
    } else {
        count_where(edges.drop_last(), p) + if p(edges.last().kind) { 1nat } else { 0nat }
    }
}

/// One step of [`select`] over a growing prefix.
pub proof fn lemma_select_step<T>(edges: Seq<CpgEdge>, i: int, f: spec_fn(CpgEdge) -> Option<T>)
    requires
        0 <= i < edges.len(),
    ensures
        select(edges.take(i + 1), f) == match f(edges[i]) {
            Some(x) => select(edges.take(i), f).push(x),
            None => select(edges.take(i), f),
        },
{
    assert(edges.take(i + 1).drop_last() =~= edges.take(i));
    assert(edges.take(i + 1).last() == edges[i]);
}

/// One step of [`count_where`] over a growing prefix.
pub proof fn lemma_count_step(edges: Seq<CpgEdge>, i: int, p: spec_fn(CpgEdgeKind) -> bool)
    requires
        0 <= i < edges.len(),
    ensures
        count_where(edges.take(i + 1), p) == count_where(edges.take(i), p) + if p(edges[i].kind) { 1nat } else { 0nat },
{
    assert(edges.take(i + 1).drop_last() =~= edges.take(i));
}

/// Every value [`select`] yields comes from some edge.
pub proof fn lemma_select_member<T>(edges: Seq<CpgEdge>, f: spec_fn(CpgEdge) -> Option<T>, x: T)
    ensures
        select(edges, f).contains(x) <==> exists|k: int| 0 <= k < edges.len() && f(edges[k]) == Some(x),
    decreases edges.len(),
{
    if edges.len() > 0 {
        let init = edges.drop_last();
        lemma_select_member(init, f, x);
        let rest = select(init, f);
        if select(edges, f).contains(x) {
            match f(edges.last()) {
                Some(y) => {
                    let j = choose|j: int| 0 <= j < rest.push(y).len() && rest.push(y)[j] == x;
                    if j < rest.len() {
                        assert(rest.contains(x));
                        let k = choose|k: int| 0 <= k < init.len() && f(init[k]) == Some(x);
                        assert(edges[k] == init[k]);
                    } else {
                        assert(f(edges[edges.len() - 1]) == Some(x));
                    }
                },
                None => {
                    let k = choose|k: int| 0 <= k < init.len() && f(init[k]) == Some(x);
                    assert(edges[k] == init[k]);
                },
            }
        }
        if exists|k: int| 0 <= k < edges.len() && f(edges[k]) == Some(x) {
            let k = choose|k: int| 0 <= k < edges.len() && f(edges[k]) == Some(x);
            if k < init.len() {
                assert(init[k] == edges[k]);
                assert(rest.contains(x));
                let j = choose|j: int| 0 <= j < rest.len() && rest[j] == x;
                match f(edges.last()) {
                    Some(y) => assert(rest.push(y)[j] == x),
                    None => {},
                }
            } else {
                match f(edges.last()) {
                    Some(y) => assert(rest.push(y)[rest.len() as int] == x),
                    None => {},
                }
            }
        }
    }
}

/// Targets of `n`'s syntax-tree child edges.
pub open spec fn sel_ast_child(n: NodeId) -> spec_fn(CpgEdge) -> Option<NodeId> {
    |e: CpgEdge| if e.source == n && e.kind == CpgEdgeKind::AstChild { Some(e.target) } else { None }
}

/// Control-flow successors of `n` with their labels.
pub open spec fn sel_cfg_succ(n: NodeId) -> spec_fn(CpgEdge) -> Option<(NodeId, CfgEdgeKind)> {
    |e: CpgEdge| if e.source == n { match e.kind { CpgEdgeKind::ControlFlow(k) => Some((e.target, k)), _ => None } } else { None }
}

/// Control-flow predecessors of `n` with their labels.
pub open spec fn sel_cfg_pred(n: NodeId) -> spec_fn(CpgEdge) -> Option<(NodeId, CfgEdgeKind)> {
    |e: CpgEdge| if e.target == n { match e.kind { CpgEdgeKind::ControlFlow(k) => Some((e.source, k)), _ => None } } else { None }
}

/// Data-flow successors of `n` with their labels.
pub open spec fn sel_dfg_succ(n: NodeId) -> spec_fn(CpgEdge) -> Option<(NodeId, DfgEdgeKind)> {
    |e: CpgEdge| if e.source == n { match e.kind { CpgEdgeKind::DataFlow(k) => Some((e.target, k)), _ => None } } else { None }
}

/// Data-flow predecessors of `n` with their labels.
pub open spec fn sel_dfg_pred(n: NodeId) -> spec_fn(CpgEdge) -> Option<(NodeId, DfgEdgeKind)> {
    |e: CpgEdge| if e.target == n { match e.kind { CpgEdgeKind::DataFlow(k) => Some((e.source, k)), _ => None } } else { None }
}

/// Definitions whose def-use or reaching-definition edge ends at `n`.
pub open spec fn sel_reaching(n: NodeId) -> spec_fn(CpgEdge) -> Option<NodeId> {
    |e: CpgEdge| if e.target == n && (e.kind == CpgEdgeKind::DataFlow(DfgEdgeKind::DefUse) || e.kind == CpgEdgeKind::DataFlow(DfgEdgeKind::ReachingDef)) { Some(e.source) } else { None }
}

/// Edges leaving `n`.
pub open spec fn sel_out(n: NodeId) -> spec_fn(CpgEdge) -> Option<CpgEdge> {
    |e: CpgEdge| if e.source == n { Some(e) } else { None }
}

/// Edges entering `n`.
pub open spec fn sel_in(n: NodeId) -> spec_fn(CpgEdge) -> Option<CpgEdge> {
    |e: CpgEdge| if e.target == n { Some(e) } else { None }
}

/// Edges from `a` to `b`.
pub open spec fn sel_between(a: NodeId, b: NodeId) -> spec_fn(CpgEdge) -> Option<CpgEdge> {
    |e: CpgEdge| if e.source == a && e.target == b { Some(e) } else { None }
}

/// Whether a node kind is a function.
pub open spec fn is_function_kind(k: CpgNodeKind) -> bool {
    k is Function
}

/// The calls resolved to `function` among the first `upto` nodes, in node order.
pub open spec fn callers_of(nodes: Seq<CpgNode>, function: NodeId, upto: int) -> Seq<NodeId>
    decreases upto,
{
    if upto <= 0 {
        Seq::empty()
    } else {
        let rest = callers_of(nodes, function, upto - 1);
        if calls(nodes[upto - 1].kind, function) { rest.push(NodeId((upto - 1) as u32)) } else { rest }
    }
}

/// The function nodes among the first `upto` nodes, in node order.
pub open spec fn function_ids(nodes: Seq<CpgNode>, upto: int) -> Seq<NodeId>
    decreases upto,
{
    if upto <= 0 {
        Seq::empty()
    } else {
        let rest = function_ids(nodes, upto - 1);
        if is_function_kind(nodes[upto - 1].kind) { rest.push(NodeId((upto - 1) as u32)) } else { rest }
    }
}

// ---------------------------------------------------------------------------
// The graph
// ---------------------------------------------------------------------------

/// A Code Property Graph.
#[derive(Clone, Debug)]
pub struct CodePropertyGraph {
    nodes: Vec<CpgNode>,
    edges: Vec<CpgEdge>,
    cfg_entries: Vec<NodeId>,
    cfg_exits: Vec<NodeId>,
    language: Language,
    source_code: Option<String>,
    source_path: Option<String>,
}

impl CodePropertyGraph {
    /// The nodes, in id order.
    pub closed spec fn nodes_view(&self) -> Seq<CpgNode> {
        self.nodes@
    }

    /// The edges, in insertion order.
    pub closed spec fn edges_view(&self) -> Seq<CpgEdge> {
        self.edges@
    }

    /// The recorded control-flow entry points.
    pub closed spec fn entries_view(&self) -> Seq<NodeId> {
        self.cfg_entries@
    }

    /// The recorded control-flow exit points.
    pub closed spec fn exits_view(&self) -> Seq<NodeId> {
        self.cfg_exits@
    }

    /// The source language.
    pub closed spec fn language_view(&self) -> Language {
        self.language
    }

    /// The retained source text.
    pub closed spec fn source_code_view(&self) -> Option<Seq<char>> {
        match self.source_code {
            Some(s) => Some(s@),
            None => None,
        }
    }

    /// The recorded source path.
    pub closed spec fn source_path_view(&self) -> Option<Seq<char>> {
        match self.source_path {
            Some(s) => Some(s@),
            None => None,
        }
    }

    /// `n` names a node of the graph.
    pub open spec fn valid(&self, n: NodeId) -> bool {
        (n.0 as int) < self.nodes_view().len()
    }

    /// The node `n` names.
    pub open spec fn at(&self, n: NodeId) -> CpgNode {
        self.nodes_view()[n.0 as int]
    }

    /// The graph contains edge `e`.
    pub open spec fn has(&self, e: CpgEdge) -> bool {
        self.edges_view().contains(e)
    }

    /// Node ids are indices, edges join nodes of the graph, recorded entry and
    /// exit points are listed once each.
    pub open spec fn wf(&self) -> bool {
        &&& self.nodes_view().len() <= u32::MAX
        &&& forall|i: int| 0 <= i < self.nodes_view().len() ==> (#[trigger] self.nodes_view()[i]).id.0 == i
        &&& forall|k: int| 0 <= k < self.edges_view().len() ==>
            self.valid((#[trigger] self.edges_view()[k]).source) && self.valid(self.edges_view()[k].target)
        &&& self.entries_view().no_duplicates()
        &&& self.exits_view().no_duplicates()
    }

    /// The nodes, edges and recorded points are those of `old`, plus `edges` appended.
    pub open spec fn extends(&self, old: &CodePropertyGraph) -> bool {
        &&& self.nodes_view() == old.nodes_view()
        &&& self.edges_view().len() >= old.edges_view().len()
        &&& self.edges_view().subrange(0, old.edges_view().len() as int) == old.edges_view()
        &&& self.language_view() == old.language_view()
        &&& self.source_code_view() == old.source_code_view()
        &&& self.source_path_view() == old.source_path_view()
    }

    /// An empty graph for `language`.
    pub fn new(language: Language) -> (r: CodePropertyGraph)
        ensures
            r.wf(),
            r.nodes_view().len() == 0,
            r.edges_view().len() == 0,
            r.entries_view().len() == 0,
            r.exits_view().len() == 0,
            r.language_view() == language,
            r.source_code_view() is None,
            r.source_path_view() is None,
    {
        CodePropertyGraph {
            nodes: Vec::new(),
            edges: Vec::new(),
            cfg_entries: Vec::new(),
            cfg_exits: Vec::new(),
            language,
            source_code: None,
            source_path: None,
        }
    }

    /// The same graph, retaining `code` as its source text.
    pub fn with_source_code(self, code: &str) -> (r: CodePropertyGraph)
        ensures
            r.source_code_view() == Some(code@),
            r.source_path_view() == self.source_path_view(),
            r.nodes_view() == self.nodes_view(),
            r.edges_view() == self.edges_view(),
            r.entries_view() == self.entries_view(),
            r.exits_view() == self.exits_view(),
            r.language_view() == self.language_view(),
    {
        let mut g = self;
        g.source_code = Some(code.to_owned());
        g
    }

    /// The same graph, recording `path` as its source path.
    pub fn with_source_path(self, path: &str) -> (r: CodePropertyGraph)
        ensures
            r.source_path_view() == Some(path@),
            r.source_code_view() == self.source_code_view(),
            r.nodes_view() == self.nodes_view(),
            r.edges_view() == self.edges_view(),
            r.entries_view() == self.entries_view(),
            r.exits_view() == self.exits_view(),
            r.language_view() == self.language_view(),
    {
        let mut g = self;
        g.source_path = Some(path.to_owned());
        g
    }

    /// The source language.
    pub fn language(&self) -> (r: Language)
        ensures
            r == self.language_view(),
    {
        self.language
    }

    /// The retained source text.
    pub fn source_code(&self) -> (r: Option<&String>)
        ensures
            r matches Some(s) ==> self.source_code_view() == Some(s@),
            r is None ==> self.source_code_view() is None,
    {
        self.source_code.as_ref()
    }

    /// The recorded source path.
    pub fn source_path(&self) -> (r: Option<&String>)
        ensures
            r matches Some(s) ==> self.source_path_view() == Some(s@),
            r is None ==> self.source_path_view() is None,
    {
        self.source_path.as_ref()
    }

    /// Number of nodes.
    pub fn node_count(&self) -> (r: usize)
        ensures
            r == self.nodes_view().len(),
    {
        self.nodes.len()
    }

    /// Number of edges.
    pub fn edge_count(&self) -> (r: usize)
        ensures
            r == self.edges_view().len(),
    {
        self.edges.len()
    }

    /// All edges, in insertion order.
    pub fn edges(&self) -> (r: &Vec<CpgEdge>)
        ensures
            r@ == self.edges_view(),
    {
        &self.edges
    }

    /// Adds `node`, giving it the next id, and returns that id.
    pub fn add_node(&mut self, node: CpgNode) -> (r: NodeId)
        requires
            old(self).wf(),
            old(self).nodes_view().len() < u32::MAX,
        ensures
            final(self).wf(),
            r.0 == old(self).nodes_view().len(),
            final(self).nodes_view() == old(self).nodes_view().push(CpgNode { id: r, ..node }),
            final(self).edges_view() == old(self).edges_view(),
            final(self).entries_view() == old(self).entries_view(),
            final(self).exits_view() == old(self).exits_view(),
            final(self).language_view() == old(self).language_view(),
            final(self).source_code_view() == old(self).source_code_view(),
            final(self).source_path_view() == old(self).source_path_view(),
    {
        let id = NodeId(self.nodes.len() as u32);
        let mut node = node;
        node.id = id;
        self.nodes.push(node);
        proof {
            assert forall|k: int| 0 <= k < self.edges@.len() implies
                self.valid((#[trigger] self.edges@[k]).source) && self.valid(self.edges@[k].target) by {
                assert(old(self).valid(old(self).edges@[k].source));
            }
        }
        id
    }

    /// The node `id` names.
    pub fn node(&self, id: NodeId) -> (r: Option<&CpgNode>)
        ensures
            r matches Some(n) ==> self.valid(id) && *n == self.at(id),
            r is None ==> !self.valid(id),
    {
        if (id.0 as usize) < self.nodes.len() {
            Some(&self.nodes[id.0 as usize])
        } else {
            None
        }
    }

    /// Sets the parent pointer of node `id`; does nothing for an unknown id.
    pub fn set_parent(&mut self, id: NodeId, parent: Option<NodeId>)
        requires
            old(self).wf(),
        ensures
            final(self).wf(),
            final(self).nodes_view() == if old(self).valid(id) {
                old(self).nodes_view().update(id.0 as int, CpgNode { parent, ..old(self).at(id) })
            } else {
                old(self).nodes_view()
            },
            final(self).edges_view() == old(self).edges_view(),
            final(self).entries_view() == old(self).entries_view(),
            final(self).exits_view() == old(self).exits_view(),
            final(self).language_view() == old(self).language_view(),
            final(self).source_code_view() == old(self).source_code_view(),
            final(self).source_path_view() == old(self).source_path_view(),
    {
        let i = id.0 as usize;
        if i < self.nodes.len() {
            let mut n = CpgNode::new(NodeId(0), CpgNodeKind::Root, SourceRange { start: 0, end: 0 });
            self.nodes.set_and_swap(i, &mut n);
            n.parent = parent;
            self.nodes.set_and_swap(i, &mut n);
            proof {
                assert forall|k: int| 0 <= k < self.edges@.len() implies
                    self.valid((#[trigger] self.edges@[k]).source) && self.valid(self.edges@[k].target) by {
                    assert(old(self).valid(old(self).edges@[k].source));
                }
            }
        }
    }

    /// Appends `child` to the recorded children of node `id`; does nothing for an unknown id.
    pub fn push_child(&mut self, id: NodeId, child: NodeId)
        requires
            old(self).wf(),
        ensures
            final(self).wf(),
            final(self).nodes_view() == if old(self).valid(id) {
                old(self).nodes_view().update(id.0 as int, CpgNode { children: final(self).at(id).children, ..old(self).at(id) })
            } else {
                old(self).nodes_view()
            },
            old(self).valid(id) ==> final(self).at(id).children@ == old(self).at(id).children@.push(child),
            final(self).edges_view() == old(self).edges_view(),
            final(self).entries_view() == old(self).entries_view(),
            final(self).exits_view() == old(self).exits_view(),
            final(self).language_view() == old(self).language_view(),
            final(self).source_code_view() == old(self).source_code_view(),
            final(self).source_path_view() == old(self).source_path_view(),
    {
        let i = id.0 as usize;
        if i < self.nodes.len() {
            let mut n = CpgNode::new(NodeId(0), CpgNodeKind::Root, SourceRange { start: 0, end: 0 });
            self.nodes.set_and_swap(i, &mut n);
            n.children.push(child);
            self.nodes.set_and_swap(i, &mut n);
            proof {
                assert forall|k: int| 0 <= k < self.edges@.len() implies
                    self.valid((#[trigger] self.edges@[k]).source) && self.valid(self.edges@[k].target) by {
                    assert(old(self).valid(old(self).edges@[k].source));
                }
            }
        }
    }
}

impl CodePropertyGraph {
    /// Whether the graph holds an edge equal to `e`.
    pub fn has_edge(&self, e: CpgEdge) -> (r: bool)
        ensures
            r == self.has(e),
    {
        let mut i: usize = 0;
        while i < self.edges.len()
            invariant
                i <= self.edges@.len(),
                forall|k: int| 0 <= k < i ==> self.edges@[k] != e,
            decreases self.edges@.len() - i,
        {
            if self.edges[i] == e {
                assert(self.edges@[i as int] == e);
                return true;
            }
            i = i + 1;
        }
        false
    }

    /// Adds the edge `source -> target` labelled `kind` when both nodes exist;
    /// returns whether it was added.
    pub fn connect(&mut self, source: NodeId, target: NodeId, kind: CpgEdgeKind) -> (r: bool)
        requires
            old(self).wf(),
        ensures
            final(self).wf(),
            r == (old(self).valid(source) && old(self).valid(target)),
            final(self).edges_view() == if r {
                old(self).edges_view().push(CpgEdge { source, target, kind })
            } else {
                old(self).edges_view()
            },
            final(self).nodes_view() == old(self).nodes_view(),
            final(self).entries_view() == old(self).entries_view(),
            final(self).exits_view() == old(self).exits_view(),
            final(self).language_view() == old(self).language_view(),
            final(self).source_code_view() == old(self).source_code_view(),
            final(self).source_path_view() == old(self).source_path_view(),
    {
        let n = self.nodes.len();
        if (source.0 as usize) < n && (target.0 as usize) < n {
            self.edges.push(CpgEdge { source, target, kind });
            proof {
                assert forall|k: int| 0 <= k < self.edges@.len() implies
                    self.valid((#[trigger] self.edges@[k]).source) && self.valid(self.edges@[k].target) by {
                    if k < old(self).edges@.len() {
                        assert(old(self).valid(old(self).edges@[k].source));
                    }
                }
            }
            true
        } else {
            false
        }
    }

    /// Adds the edge `source -> target` labelled `kind` when both nodes exist
    /// and no equal edge is present; returns whether it was added.
    pub fn connect_unique(&mut self, source: NodeId, target: NodeId, kind: CpgEdgeKind) -> (r: bool)
        requires
            old(self).wf(),
        ensures
            final(self).wf(),
            r == (old(self).valid(source) && old(self).valid(target) && !old(self).has(CpgEdge { source, target, kind })),
            final(self).edges_view() == if r {
                old(self).edges_view().push(CpgEdge { source, target, kind })
            } else {
                old(self).edges_view()
            },
            old(self).valid(source) && old(self).valid(target) ==> final(self).has(CpgEdge { source, target, kind }),
            final(self).nodes_view() == old(self).nodes_view(),
            final(self).entries_view() == old(self).entries_view(),
            final(self).exits_view() == old(self).exits_view(),
            final(self).language_view() == old(self).language_view(),
            final(self).source_code_view() == old(self).source_code_view(),
            final(self).source_path_view() == old(self).source_path_view(),
    {
        if self.has_edge(CpgEdge { source, target, kind }) {
            false
        } else {
            let r = self.connect(source, target, kind);
            proof {
                if r {
                    assert(self.edges@[self.edges@.len() - 1] == CpgEdge { source, target, kind });
                }
            }
            r
        }
    }

    /// Records `id` as a control-flow entry point (once).
    pub fn add_cfg_entry(&mut self, id: NodeId)
        requires
            old(self).wf(),
        ensures
            final(self).wf(),
            final(self).entries_view() == if old(self).entries_view().contains(id) {
                old(self).entries_view()
            } else {
                old(self).entries_view().push(id)
            },
            final(self).nodes_view() == old(self).nodes_view(),
            final(self).edges_view() == old(self).edges_view(),
            final(self).exits_view() == old(self).exits_view(),
            final(self).language_view() == old(self).language_view(),
            final(self).source_code_view() == old(self).source_code_view(),
            final(self).source_path_view() == old(self).source_path_view(),
    {
        if !contains_id(&self.cfg_entries, id) {
            self.cfg_entries.push(id);
            proof {
                assert forall|a: int, b: int| 0 <= a < b < self.cfg_entries@.len() implies self.cfg_entries@[a] != self.cfg_entries@[b] by {
                    if b == self.cfg_entries@.len() - 1 {
                        assert(old(self).cfg_entries@[a] == self.cfg_entries@[a]);
                    }
                }
            }
        }
    }

    /// Records `id` as a control-flow exit point (once).
    pub fn add_cfg_exit(&mut self, id: NodeId)
        requires
            old(self).wf(),
        ensures
            final(self).wf(),
            final(self).exits_view() == if old(self).exits_view().contains(id) {
                old(self).exits_view()
            } else {
                old(self).exits_view().push(id)
            },
            final(self).nodes_view() == old(self).nodes_view(),
            final(self).edges_view() == old(self).edges_view(),
            final(self).entries_view() == old(self).entries_view(),
            final(self).language_view() == old(self).language_view(),
            final(self).source_code_view() == old(self).source_code_view(),
            final(self).source_path_view() == old(self).source_path_view(),
    {
        if !contains_id(&self.cfg_exits, id) {
            self.cfg_exits.push(id);
            proof {
                assert forall|a: int, b: int| 0 <= a < b < self.cfg_exits@.len() implies self.cfg_exits@[a] != self.cfg_exits@[b] by {
                    if b == self.cfg_exits@.len() - 1 {
                        assert(old(self).cfg_exits@[a] == self.cfg_exits@[a]);
                    }
                }
            }
        }
    }

    /// The recorded control-flow entry points.
    pub fn cfg_entries(&self) -> (r: &Vec<NodeId>)
        ensures
            r@ == self.entries_view(),
    {
        &self.cfg_entries
    }

    /// The recorded control-flow exit points.
    pub fn cfg_exits(&self) -> (r: &Vec<NodeId>)
        ensures
            r@ == self.exits_view(),
    {
        &self.cfg_exits
    }

    /// The nodes, in id order.
    pub fn nodes(&self) -> (r: &Vec<CpgNode>)
        ensures
            r@ == self.nodes_view(),
    {
        &self.nodes
    }

    /// Node and edge counts, with the edges counted per overlay.
    pub fn stats(&self) -> (r: CpgStats)
        ensures
            r.node_count == self.nodes_view().len(),
            r.edge_count == self.edges_view().len(),
            r.ast_edges == count_where(self.edges_view(), |k: CpgEdgeKind| k == CpgEdgeKind::AstChild),
            r.cfg_edges == count_where(self.edges_view(), |k: CpgEdgeKind| k.spec_is_cfg()),
            r.dfg_edges == count_where(self.edges_view(), |k: CpgEdgeKind| k.spec_is_dfg()),
            r.pdg_edges == count_where(self.edges_view(), |k: CpgEdgeKind| k.spec_is_pdg()),
            r.call_edges == count_where(self.edges_view(), |k: CpgEdgeKind| k.spec_is_call()),
    {
        let ghost pa = |k: CpgEdgeKind| k == CpgEdgeKind::AstChild;
        let ghost pc = |k: CpgEdgeKind| k.spec_is_cfg();
        let ghost pd = |k: CpgEdgeKind| k.spec_is_dfg();
        let ghost pp = |k: CpgEdgeKind| k.spec_is_pdg();
        let ghost pk = |k: CpgEdgeKind| k.spec_is_call();
        let mut r = CpgStats {
            node_count: self.nodes.len(),
            edge_count: self.edges.len(),
            ast_edges: 0,
            cfg_edges: 0,
            dfg_edges: 0,
            pdg_edges: 0,
            call_edges: 0,
        };
        let mut i: usize = 0;
        while i < self.edges.len()
            invariant
                i <= self.edges@.len(),
                r.node_count == self.nodes@.len(),
                r.edge_count == self.edges@.len(),
                pa == (|k: CpgEdgeKind| k == CpgEdgeKind::AstChild),
                pc == (|k: CpgEdgeKind| k.spec_is_cfg()),
                pd == (|k: CpgEdgeKind| k.spec_is_dfg()),
                pp == (|k: CpgEdgeKind| k.spec_is_pdg()),
                pk == (|k: CpgEdgeKind| k.spec_is_call()),
                r.ast_edges == count_where(self.edges@.take(i as int), pa),
                r.cfg_edges == count_where(self.edges@.take(i as int), pc),
                r.dfg_edges == count_where(self.edges@.take(i as int), pd),
                r.pdg_edges == count_where(self.edges@.take(i as int), pp),
                r.call_edges == count_where(self.edges@.take(i as int), pk),
                r.ast_edges <= i && r.cfg_edges <= i && r.dfg_edges <= i && r.pdg_edges <= i && r.call_edges <= i,
            decreases self.edges@.len() - i,
        {
            proof {
                lemma_count_step(self.edges@, i as int, pa);
                lemma_count_step(self.edges@, i as int, pc);
                lemma_count_step(self.edges@, i as int, pd);
                lemma_count_step(self.edges@, i as int, pp);
                lemma_count_step(self.edges@, i as int, pk);
            }
            let k = self.edges[i].kind;
            if k == CpgEdgeKind::AstChild {
                r.ast_edges = r.ast_edges + 1;
            }
            if k.is_cfg() {
                r.cfg_edges = r.cfg_edges + 1;
            }
            if k.is_dfg() {
                r.dfg_edges = r.dfg_edges + 1;
            }
            if k.is_pdg() {
                r.pdg_edges = r.pdg_edges + 1;
            }
            if k.is_call() {
                r.call_edges = r.call_edges + 1;
            }
            i = i + 1;
        }
        assert(self.edges@.take(self.edges@.len() as int) =~= self.edges@);
        r
    }

    /// Ids of the function nodes, in id order.
    pub fn functions(&self) -> (r: Vec<NodeId>)
        requires
            self.wf(),
        ensures
            forall|k: int| 0 <= k < r@.len() ==> self.valid(#[trigger] r@[k]) && is_function_kind(self.at(r@[k]).kind),
            forall|i: int| 0 <= i < self.nodes_view().len() && is_function_kind(#[trigger] self.nodes_view()[i].kind)
                ==> r@.contains(NodeId(i as u32)),
            forall|a: int, b: int| 0 <= a < b < r@.len() ==> r@[a].0 < r@[b].0,
            r@ == function_ids(self.nodes_view(), self.nodes_view().len() as int),
    {
        let mut r: Vec<NodeId> = Vec::new();
        let mut i: usize = 0;
        while i < self.nodes.len()
            invariant
                self.wf(),
                i <= self.nodes@.len(),
                forall|k: int| 0 <= k < r@.len() ==> (#[trigger] r@[k]).0 < i && self.valid(r@[k]) && is_function_kind(self.at(r@[k]).kind),
                forall|j: int| 0 <= j < i && is_function_kind(#[trigger] self.nodes@[j].kind) ==> r@.contains(NodeId(j as u32)),
                forall|a: int, b: int| 0 <= a < b < r@.len() ==> r@[a].0 < r@[b].0,
                r@ == function_ids(self.nodes@, i as int),
            decreases self.nodes@.len() - i,
        {
            let ghost prev = r@;
            if let CpgNodeKind::Function { .. } = &self.nodes[i].kind {
                r.push(NodeId(i as u32));
                proof {
                    assert(r@[r@.len() - 1] == NodeId(i as u32));
                    assert forall|j: int| 0 <= j < i + 1 && is_function_kind(#[trigger] self.nodes@[j].kind) implies r@.contains(NodeId(j as u32)) by {
                        if j < i {
                            let t = choose|t: int| 0 <= t < prev.len() && prev[t] == NodeId(j as u32);
                            assert(r@[t] == prev[t]);
                        }
                    }
                }
            }
            i = i + 1;
        }
        r
    }

    /// Targets of the syntax-tree child edges of `id`, in edge order.
    pub fn ast_children(&self, id: NodeId) -> (r: Vec<NodeId>)
        ensures
            r@ == select(self.edges_view(), sel_ast_child(id)),
    {
        let mut r: Vec<NodeId> = Vec::new();
        let mut i: usize = 0;
        while i < self.edges.len()
            invariant
                i <= self.edges@.len(),
                r@ == select(self.edges@.take(i as int), sel_ast_child(id)),
            decreases self.edges@.len() - i,
        {
            proof { lemma_select_step(self.edges@, i as int, sel_ast_child(id)); }
            let e = self.edges[i];
            if e.source == id && e.kind == CpgEdgeKind::AstChild {
                r.push(e.target);
            }
            i = i + 1;
        }
        assert(self.edges@.take(self.edges@.len() as int) =~= self.edges@);
        r
    }

    /// Control-flow successors of `id` with their labels, in edge order.
    pub fn cfg_successors(&self, id: NodeId) -> (r: Vec<(NodeId, CfgEdgeKind)>)
        ensures
            r@ == select(self.edges_view(), sel_cfg_succ(id)),
    {
        let mut r: Vec<(NodeId, CfgEdgeKind)> = Vec::new();
        let mut i: usize = 0;
        while i < self.edges.len()
            invariant
                i <= self.edges@.len(),
                r@ == select(self.edges@.take(i as int), sel_cfg_succ(id)),
            decreases self.edges@.len() - i,
        {
            proof { lemma_select_step(self.edges@, i as int, sel_cfg_succ(id)); }
            let e = self.edges[i];
            if e.source == id {
                if let CpgEdgeKind::ControlFlow(k) = e.kind {
                    r.push((e.target, k));
                }
            }
            i = i + 1;
        }
        assert(self.edges@.take(self.edges@.len() as int) =~= self.edges@);
        r
    }

    /// Control-flow predecessors of `id` with their labels, in edge order.
    pub fn cfg_predecessors(&self, id: NodeId) -> (r: Vec<(NodeId, CfgEdgeKind)>)
        ensures
            r@ == select(self.edges_view(), sel_cfg_pred(id)),
    {
        let mut r: Vec<(NodeId, CfgEdgeKind)> = Vec::new();
        let mut i: usize = 0;
        while i < self.edges.len()
            invariant
                i <= self.edges@.len(),
                r@ == select(self.edges@.take(i as int), sel_cfg_pred(id)),
            decreases self.edges@.len() - i,
        {
            proof { lemma_select_step(self.edges@, i as int, sel_cfg_pred(id)); }
            let e = self.edges[i];
            if e.target == id {
                if let CpgEdgeKind::ControlFlow(k) = e.kind {
                    r.push((e.source, k));
                }
            }
            i = i + 1;
        }
        assert(self.edges@.take(self.edges@.len() as int) =~= self.edges@);
        r
    }

    /// Data-flow successors of `id` with their labels, in edge order.
    pub fn dfg_successors(&self, id: NodeId) -> (r: Vec<(NodeId, DfgEdgeKind)>)
        ensures
            r@ == select(self.edges_view(), sel_dfg_succ(id)),
    {
        let mut r: Vec<(NodeId, DfgEdgeKind)> = Vec::new();
        let mut i: usize = 0;
        while i < self.edges.len()
            invariant
                i <= self.edges@.len(),
                r@ == select(self.edges@.take(i as int), sel_dfg_succ(id)),
            decreases self.edges@.len() - i,
        {
            proof { lemma_select_step(self.edges@, i as int, sel_dfg_succ(id)); }
            let e = self.edges[i];
            if e.source == id {
                if let CpgEdgeKind::DataFlow(k) = e.kind {
                    r.push((e.target, k));
                }
            }
            i = i + 1;
        }
        assert(self.edges@.take(self.edges@.len() as int) =~= self.edges@);
        r
    }

    /// Data-flow predecessors of `id` with their labels, in edge order.
    pub fn dfg_predecessors(&self, id: NodeId) -> (r: Vec<(NodeId, DfgEdgeKind)>)
        ensures
            r@ == select(self.edges_view(), sel_dfg_pred(id)),
    {
        let mut r: Vec<(NodeId, DfgEdgeKind)> = Vec::new();
        let mut i: usize = 0;
        while i < self.edges.len()
            invariant
                i <= self.edges@.len(),
                r@ == select(self.edges@.take(i as int), sel_dfg_pred(id)),
            decreases self.edges@.len() - i,
        {
            proof { lemma_select_step(self.edges@, i as int, sel_dfg_pred(id)); }
            let e = self.edges[i];
            if e.target == id {
                if let CpgEdgeKind::DataFlow(k) = e.kind {
                    r.push((e.source, k));
                }
            }
            i = i + 1;
        }
        assert(self.edges@.take(self.edges@.len() as int) =~= self.edges@);
        r
    }

    /// Definitions reaching `id`: sources of def-use and reaching-definition edges into it.
    pub fn reaching_definitions(&self, id: NodeId) -> (r: Vec<NodeId>)
        ensures
            r@ == select(self.edges_view(), sel_reaching(id)),
    {
        let mut r: Vec<NodeId> = Vec::new();
        let mut i: usize = 0;
        while i < self.edges.len()
            invariant
                i <= self.edges@.len(),
                r@ == select(self.edges@.take(i as int), sel_reaching(id)),
            decreases self.edges@.len() - i,
        {
            proof { lemma_select_step(self.edges@, i as int, sel_reaching(id)); }
            let e = self.edges[i];
            if e.target == id && (e.kind == CpgEdgeKind::DataFlow(DfgEdgeKind::DefUse) || e.kind == CpgEdgeKind::DataFlow(DfgEdgeKind::ReachingDef)) {
                r.push(e.source);
            }
            i = i + 1;
        }
        assert(self.edges@.take(self.edges@.len() as int) =~= self.edges@);
        r
    }

    /// Edges leaving `id`, in edge order.
    pub fn outgoing_edges(&self, id: NodeId) -> (r: Vec<CpgEdge>)
        ensures
            r@ == select(self.edges_view(), sel_out(id)),
    {
        let mut r: Vec<CpgEdge> = Vec::new();
        let mut i: usize = 0;
        while i < self.edges.len()
            invariant
                i <= self.edges@.len(),
                r@ == select(self.edges@.take(i as int), sel_out(id)),
            decreases self.edges@.len() - i,
        {
            proof { lemma_select_step(self.edges@, i as int, sel_out(id)); }
            let e = self.edges[i];
            if e.source == id {
                r.push(e);
            }
            i = i + 1;
        }
        assert(self.edges@.take(self.edges@.len() as int) =~= self.edges@);
        r
    }

    /// Edges entering `id`, in edge order.
    pub fn incoming_edges(&self, id: NodeId) -> (r: Vec<CpgEdge>)
        ensures
            r@ == select(self.edges_view(), sel_in(id)),
    {
        let mut r: Vec<CpgEdge> = Vec::new();
        let mut i: usize = 0;
        while i < self.edges.len()
            invariant
                i <= self.edges@.len(),
                r@ == select(self.edges@.take(i as int), sel_in(id)),
            decreases self.edges@.len() - i,
        {
            proof { lemma_select_step(self.edges@, i as int, sel_in(id)); }
            let e = self.edges[i];
            if e.target == id {
                r.push(e);
            }
            i = i + 1;
        }
        assert(self.edges@.take(self.edges@.len() as int) =~= self.edges@);
        r
    }

    /// Edges from `a` to `b`, in edge order.
    pub fn edges_between(&self, a: NodeId, b: NodeId) -> (r: Vec<CpgEdge>)
        ensures
            r@ == select(self.edges_view(), sel_between(a, b)),
    {
        let mut r: Vec<CpgEdge> = Vec::new();
        let mut i: usize = 0;
        while i < self.edges.len()
            invariant
                i <= self.edges@.len(),
                r@ == select(self.edges@.take(i as int), sel_between(a, b)),
            decreases self.edges@.len() - i,
        {
            proof { lemma_select_step(self.edges@, i as int, sel_between(a, b)); }
            let e = self.edges[i];
            if e.source == a && e.target == b {
                r.push(e);
            }
            i = i + 1;
        }
        assert(self.edges@.take(self.edges@.len() as int) =~= self.edges@);
        r
    }

    /// The parent pointer recorded on node `id`.
    pub fn ast_parent(&self, id: NodeId) -> (r: Option<NodeId>)
        ensures
            r == parent_of(self, id),
    {
        if (id.0 as usize) < self.nodes.len() {
            self.nodes[id.0 as usize].parent
        } else {
            None
        }
    }

    /// The chain of parent pointers above `id`, nearest first. The chain stops
    /// at a node without a parent (or an unknown id), and after as many steps
    /// as there are nodes, so a malformed cyclic chain is cut.
    pub fn ast_ancestors(&self, id: NodeId) -> (r: Vec<NodeId>)
        ensures
            r@ == ancestor_chain(self, id, self.nodes_view().len() as nat),
    {
        let mut r: Vec<NodeId> = Vec::new();
        let mut cur = id;
        let mut fuel: usize = self.nodes.len();
        while fuel > 0
            invariant
                fuel <= self.nodes@.len(),
                r@ + ancestor_chain(self, cur, fuel as nat) == ancestor_chain(self, id, self.nodes@.len() as nat),
            decreases fuel,
        {
            match self.ast_parent(cur) {
                Some(p) => {
                    proof {
                        assert(r@.push(p) + ancestor_chain(self, p, (fuel - 1) as nat) =~= r@ + ancestor_chain(self, cur, fuel as nat));
                    }
                    r.push(p);
                    cur = p;
                    fuel = fuel - 1;
                },
                None => {
                    assert(r@ + ancestor_chain(self, cur, fuel as nat) =~= r@);
                    return r;
                },
            }
        }
        assert(r@ + ancestor_chain(self, cur, 0) =~= r@);
        r
    }

    /// Call nodes whose resolved target is `function`, in id order.
    pub fn callers(&self, function: NodeId) -> (r: Vec<NodeId>)
        requires
            self.wf(),
        ensures
            forall|k: int| 0 <= k < r@.len() ==> self.valid(#[trigger] r@[k]) && calls(self.at(r@[k]).kind, function),
            forall|i: int| 0 <= i < self.nodes_view().len() && calls(#[trigger] self.nodes_view()[i].kind, function)
                ==> r@.contains(NodeId(i as u32)),
            r@ == callers_of(self.nodes_view(), function, self.nodes_view().len() as int),
    {
        let mut r: Vec<NodeId> = Vec::new();
        let mut i: usize = 0;
        while i < self.nodes.len()
            invariant
                self.wf(),
                i <= self.nodes@.len(),
                forall|k: int| 0 <= k < r@.len() ==> self.valid(#[trigger] r@[k]) && calls(self.at(r@[k]).kind, function),
                forall|j: int| 0 <= j < i && calls(#[trigger] self.nodes@[j].kind, function) ==> r@.contains(NodeId(j as u32)),
                r@ == callers_of(self.nodes@, function, i as int),
            decreases self.nodes@.len() - i,
        {
            let ghost prev = r@;
            if let CpgNodeKind::Call { target: Some(t), .. } = &self.nodes[i].kind {
                if *t == function {
                    r.push(NodeId(i as u32));
                    proof {
                        assert(r@[r@.len() - 1] == NodeId(i as u32));
                        assert forall|j: int| 0 <= j < i + 1 && calls(#[trigger] self.nodes@[j].kind, function) implies r@.contains(NodeId(j as u32)) by {
                            if j < i {
                                let t = choose|t: int| 0 <= t < prev.len() && prev[t] == NodeId(j as u32);
                                assert(r@[t] == prev[t]);
                            }
                        }
                    }
                }
            }
            i = i + 1;
        }
        r
    }
}

/// `k` is a call resolved to `function`.
pub open spec fn calls(k: CpgNodeKind, function: NodeId) -> bool {
    k matches CpgNodeKind::Call { target: Some(t), .. } && t == function
}

/// Every edge from position `from` on differs from every edge before it:
/// what was appended there repeats neither an earlier edge nor itself.
pub open spec fn appended_fresh(edges: Seq<CpgEdge>, from: int) -> bool {
    forall|i: int, j: int| 0 <= i < j < edges.len() && from <= j ==> #[trigger] edges[i] != #[trigger] edges[j]
}

/// Fresh appends compose.
pub proof fn lemma_appended_fresh_trans(from: int, b: Seq<CpgEdge>, c: Seq<CpgEdge>)
    requires
        from <= b.len() <= c.len(),
        c.subrange(0, b.len() as int) == b,
        appended_fresh(b, from),
        appended_fresh(c, b.len() as int),
    ensures
        appended_fresh(c, from),
{
    assert forall|i: int, j: int| 0 <= i < j < c.len() && from <= j implies #[trigger] c[i] != #[trigger] c[j] by {
        if j < b.len() {
            assert(c[i] == c.subrange(0, b.len() as int)[i]);
            assert(c[j] == c.subrange(0, b.len() as int)[j]);
            assert(b[i] != b[j]);
        }
    }
}

/// The parent pointer of `n`, if `n` is a node.
pub open spec fn parent_of(g: &CodePropertyGraph, n: NodeId) -> Option<NodeId> {
    if g.valid(n) { g.at(n).parent } else { None }
}

/// Up to `fuel` parent pointers above `n`, nearest first.
pub open spec fn ancestor_chain(g: &CodePropertyGraph, n: NodeId, fuel: nat) -> Seq<NodeId>
    decreases fuel,
{
    if fuel == 0 {
        Seq::empty()
    } else {
        match parent_of(g, n) {
            Some(p) => seq![p] + ancestor_chain(g, p, (fuel - 1) as nat),
            None => Seq::empty(),
        }
    }
}

/// Whether `v` holds `id`.
pub fn contains_id(v: &Vec<NodeId>, id: NodeId) -> (r: bool)
    ensures
        r == v@.contains(id),
{
    let mut i: usize = 0;
    while i < v.len()
        invariant
            i <= v@.len(),
            forall|k: int| 0 <= k < i ==> v@[k] != id,
        decreases v@.len() - i,
    {
        if v[i] == id {
            assert(v@[i as int] == id);
            return true;
        }
        i = i + 1;
    }
    false
}

/// A copy of a list of node ids.
pub fn copy_ids(v: &Vec<NodeId>) -> (r: Vec<NodeId>)
    ensures
        r@ == v@,
{
    let mut r: Vec<NodeId> = Vec::new();
    let mut i: usize = 0;
    while i < v.len()
        invariant
            i <= v@.len(),
            r@ == v@.take(i as int),
        decreases v@.len() - i,
    {
        r.push(v[i]);
        i = i + 1;
        proof {
            assert(r@ =~= v@.take(i as int));
        }
    }
    assert(v@.take(v@.len() as int) =~= v@);
    r
}

} // verus!
