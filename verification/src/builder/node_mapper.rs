//! From grammar node kinds to graph node kinds, one table per language.
//!
//! Each language's table is stated twice: as a spec function, which is the
//! contract, and as the executable mapping, which is proved to compute it.

use vstd::prelude::*;
use vstd::string::*;
use crate::graph::{
    CpgNodeKind, KindView, Language, LiteralKind, LiteralView, MethodSignature, ScopeId,
    SignatureView, TypeInfo, Visibility, type_view,
};
use crate::syntax::{SyntaxTree, bytes_of};
use crate::text::{
    radix_value, str_contains, str_eq, str_starts_with, text_has, text_starts, trimmed,
    without_underscores, lowercase_of, parse_radix, remove_underscores, to_lower, trim_char,
};

verus! {

// ---------------------------------------------------------------------------
// What the mappers read of a node
// ---------------------------------------------------------------------------

/// Tests on the grammar kind of a child, for "the first child that ..." lookups.
#[derive(Clone, Copy, PartialEq, Eq, Structural, Debug)]
pub enum KindTest {
    /// An operator token, or an `operator` node.
    Operator,
    /// A `use_tree` or `scoped_identifier`.
    UseTree,
    /// A `meta_item` or `attribute`.
    MetaItem,
    /// An `identifier` or `attribute`.
    DecoratorHead,
    /// A `uri_literal`.
    UriLiteral,
}

/// An operator token: at most three bytes holding an operator character, or
/// one of the word operators.
pub open spec fn op_like(k: Seq<char>) -> bool {
    bytes_of(k).len() <= 3 && (
        text_has(k, "+"@) || text_has(k, "-"@) || text_has(k, "*"@) || text_has(k, "/"@)
        || text_has(k, "%"@) || text_has(k, "="@) || text_has(k, "<"@) || text_has(k, ">"@)
        || text_has(k, "&"@) || text_has(k, "|"@) || text_has(k, "^"@) || text_has(k, "!"@)
        || k == "and"@ || k == "or"@ || k == "not"@)
}

/// Whether kind `k` passes test `p`.
pub open spec fn kind_test(p: KindTest, k: Seq<char>) -> bool {
    match p {
        KindTest::Operator => op_like(k) || k == "operator"@,
        KindTest::UseTree => k == "use_tree"@ || k == "scoped_identifier"@,
        KindTest::MetaItem => k == "meta_item"@ || k == "attribute"@,
        KindTest::DecoratorHead => k == "identifier"@ || k == "attribute"@,
        KindTest::UriLiteral => k == "uri_literal"@,
    }
}

/// `j` is the first position of `cs` whose node passes `p`.
pub open spec fn is_first_where(t: &SyntaxTree, cs: Seq<usize>, p: KindTest, j: int) -> bool {
    &&& 0 <= j < cs.len()
    &&& kind_test(p, t.node(cs[j] as int).kind)
    &&& forall|k: int| 0 <= k < j ==> !kind_test(p, t.node(cs[k] as int).kind)
}

/// The first child of `n` whose kind passes `p`.
pub open spec fn first_child_where(t: &SyntaxTree, n: int, p: KindTest) -> Option<usize> {
    let cs = t.node(n).children;
    if exists|j: int| is_first_where(t, cs, p, j) {
        Some(cs[choose|j: int| is_first_where(t, cs, p, j)])
    } else {
        None
    }
}

/// The text of the child of `n` under field `f`, or empty.
pub open spec fn child_text(t: &SyntaxTree, n: int, f: Seq<char>) -> Seq<char> {
    match t.field_child(n, f) {
        Some(c) => t.text_of(c as int),
        None => Seq::empty(),
    }
}

/// The text of the child of `n` under field `f`, if there is one.
pub open spec fn child_opt_text(t: &SyntaxTree, n: int, f: Seq<char>) -> Option<Seq<char>> {
    match t.field_child(n, f) {
        Some(c) => Some(t.text_of(c as int)),
        None => None,
    }
}

/// Some child of `n` has kind `k`.
pub open spec fn has_child_kind(t: &SyntaxTree, n: int, k: Seq<char>) -> bool {
    exists|j: int| 0 <= j < t.node(n).children.len() && #[trigger] t.node(t.node(n).children[j] as int).kind == k
}

/// A `modifiers` child of `n` has a child of kind `m`.
pub open spec fn has_modifier(t: &SyntaxTree, n: int, m: Seq<char>) -> bool {
    exists|j: int, i: int| #![trigger t.node(t.node(n).children[j] as int).children[i]]
        0 <= j < t.node(n).children.len()
        && t.node(t.node(n).children[j] as int).kind == "modifiers"@
        && 0 <= i < t.node(t.node(n).children[j] as int).children.len()
        && t.node(t.node(t.node(n).children[j] as int).children[i] as int).kind == m
}

/// The operator of an operator expression: the first operator child's kind,
/// or the text of the first `operator` child, or `?`.
pub open spec fn operator_of(t: &SyntaxTree, n: int) -> Seq<char> {
    match first_child_where(t, n, KindTest::Operator) {
        Some(c) => if op_like(t.node(c as int).kind) { t.node(c as int).kind } else { t.text_of(c as int) },
        None => "?"@,
    }
}

/// The name a declaration binds: its `pattern` child when that is an
/// identifier, else its `name` child, else empty.
pub open spec fn pattern_name(t: &SyntaxTree, n: int) -> Seq<char> {
    match t.field_child(n, "pattern"@) {
        Some(p) if t.node(p as int).kind == "identifier"@ => t.text_of(p as int),
        _ => match t.field_child(n, "name"@) {
            Some(c) => t.text_of(c as int),
            None => Seq::empty(),
        },
    }
}

/// The path of a `use` declaration.
pub open spec fn use_path(t: &SyntaxTree, n: int) -> Seq<char> {
    match first_child_where(t, n, KindTest::UseTree) {
        Some(c) => t.text_of(c as int),
        None => t.text_of(n),
    }
}

/// The name of an attribute.
pub open spec fn attribute_name(t: &SyntaxTree, n: int) -> Seq<char> {
    match first_child_where(t, n, KindTest::MetaItem) {
        Some(c) => match t.field_child(c as int, "path"@) {
            Some(p) => t.text_of(p as int),
            None => t.text_of(c as int),
        },
        None => t.text_of(n),
    }
}

/// The name of a decorator.
pub open spec fn decorator_name(t: &SyntaxTree, n: int) -> Seq<char> {
    match first_child_where(t, n, KindTest::DecoratorHead) {
        Some(c) => t.text_of(c as int),
        None => t.text_of(n),
    }
}

/// `html:` followed by the tag of an element.
pub open spec fn tag_name(t: &SyntaxTree, n: int) -> Seq<char> {
    match t.field_child(n, "start_tag"@) {
        Some(st) if t.node(st as int).children.len() > 0 =>
            "html:"@ + t.text_of(t.node(st as int).children[0] as int),
        _ => "html:"@ + t.text_of(n),
    }
}

/// An expression statement whose first child is a triple-quoted string.
pub open spec fn is_docstring(t: &SyntaxTree, n: int) -> bool {
    t.node(n).children.len() > 0 && (
        text_starts(t.text_of(t.node(n).children[0] as int), "\"\"\""@)
        || text_starts(t.text_of(t.node(n).children[0] as int), "'''"@))
}

/// `s` begins with `0` and one of two radix letters.
pub open spec fn radix_prefixed(s: Seq<char>, lower: char, upper: char) -> bool {
    s.len() >= 2 && s[0] == '0' && (s[1] == lower || s[1] == upper)
}

/// The value of an integer literal: underscores dropped, a `0x`/`0b`/`0o`
/// prefix selecting the radix, 0 where the digits do not parse.
pub open spec fn integer_value(text: Seq<char>) -> i64 {
    let c = without_underscores(text);
    let v = if radix_prefixed(c, 'x', 'X') {
        radix_value(c.subrange(2, c.len() as int), 16)
    } else if radix_prefixed(c, 'b', 'B') {
        radix_value(c.subrange(2, c.len() as int), 2)
    } else if radix_prefixed(c, 'o', 'O') {
        radix_value(c.subrange(2, c.len() as int), 8)
    } else {
        radix_value(c, 10)
    };
    match v {
        Some(x) => x,
        None => 0,
    }
}

/// The character of a character literal: the first character once the quotes
/// are trimmed, or NUL.
pub open spec fn char_value(text: Seq<char>) -> char {
    let s = trimmed(text, '\'');
    if s.len() > 0 { s[0] } else { '\0' }
}

/// A signature with the given name and flags and no parameters.
pub open spec fn sig(name: Seq<char>, ret: Option<Seq<char>>, is_static: bool, is_async: bool, vis: Visibility) -> SignatureView {
    SignatureView { name, params: Seq::empty(), return_type: ret, is_static, is_async, visibility: vis }
}

/// The global scope.
pub open spec fn global() -> ScopeId {
    ScopeId(0)
}

/// The identifier kind for the text of `n`.
pub open spec fn ident(t: &SyntaxTree, n: int) -> KindView {
    KindView::Identifier(t.text_of(n), None)
}

/// The string-literal kind for the text of `n`.
pub open spec fn lit_string(t: &SyntaxTree, n: int) -> KindView {
    KindView::Literal(LiteralView::String(t.text_of(n)))
}

/// The integer-literal kind for the text of `n`.
pub open spec fn lit_int(t: &SyntaxTree, n: int) -> KindView {
    KindView::Literal(LiteralView::Integer(integer_value(t.text_of(n))))
}

/// The float-literal kind for the text of `n` (its spelling, underscores dropped).
pub open spec fn lit_float(t: &SyntaxTree, n: int) -> KindView {
    KindView::Literal(LiteralView::Float(without_underscores(t.text_of(n))))
}

/// A number literal: a float when its text holds a dot, else an integer.
pub open spec fn lit_number(t: &SyntaxTree, n: int) -> KindView {
    if text_has(t.text_of(n), "."@) { lit_float(t, n) } else { lit_int(t, n) }
}

/// A parse error node.
pub open spec fn error_kind() -> KindView {
    KindView::Error("Parse error"@)
}

/// A node kind no table knows.
pub open spec fn unknown(k: Seq<char>) -> KindView {
    KindView::Unknown(k)
}


// ---------------------------------------------------------------------------
// The tables
// ---------------------------------------------------------------------------

/// Public when the item carries a visibility modifier.
pub open spec fn rust_visibility(t: &SyntaxTree, n: int) -> Visibility {
    if has_child_kind(t, n, "visibility_modifier"@) { Visibility::Public } else { Visibility::Private }
}

/// The signature of a Rust function item.
pub open spec fn rust_signature(t: &SyntaxTree, n: int) -> SignatureView {
    sig(child_text(t, n, "name"@), child_opt_text(t, n, "return_type"@), false,
        has_child_kind(t, n, "async"@), rust_visibility(t, n))
}

/// Rust grammar kinds.
pub open spec fn rust_kind(t: &SyntaxTree, n: int, k: Seq<char>) -> KindView {
    if k == "source_file"@ { KindView::Root }
    else if k == "mod_item"@ { KindView::Module(child_text(t, n, "name"@)) }
    else if k == "struct_item"@ { KindView::Struct(child_text(t, n, "name"@)) }
    else if k == "enum_item"@ { KindView::Enum(child_text(t, n, "name"@)) }
    else if k == "trait_item"@ { KindView::Trait(child_text(t, n, "name"@)) }
    else if k == "impl_item"@ { KindView::Impl(child_opt_text(t, n, "type"@), child_opt_text(t, n, "trait"@)) }
    else if k == "function_item"@ || k == "function_signature_item"@ { KindView::Function(rust_signature(t, n)) }
    else if k == "closure_expression"@ { KindView::Lambda(Seq::empty()) }
    else if k == "parameter"@ { KindView::Parameter(pattern_name(t, n), child_opt_text(t, n, "type"@), false) }
    else if k == "block"@ { KindView::Block(global()) }
    else if k == "let_declaration"@ {
        KindView::Variable(pattern_name(t, n), child_opt_text(t, n, "type"@), global(), has_child_kind(t, n, "mutable_specifier"@))
    } else if k == "const_item"@ || k == "static_item"@ {
        KindView::Variable(child_text(t, n, "name"@), child_opt_text(t, n, "type"@), global(),
            k == "static_item"@ && has_child_kind(t, n, "mutable_specifier"@))
    } else if k == "field_declaration"@ {
        KindView::Field(child_text(t, n, "name"@), child_opt_text(t, n, "type"@), rust_visibility(t, n))
    }
    else if k == "if_expression"@ { KindView::If }
    else if k == "else_clause"@ { KindView::Else }
    else if k == "while_expression"@ { KindView::While }
    else if k == "for_expression"@ { KindView::For }
    else if k == "loop_expression"@ { KindView::Loop }
    else if k == "match_expression"@ { KindView::Match }
    else if k == "match_arm"@ { KindView::MatchArm }
    else if k == "return_expression"@ { KindView::Return }
    else if k == "break_expression"@ { KindView::Break }
    else if k == "continue_expression"@ { KindView::Continue }
    else if k == "try_expression"@ { KindView::Try }
    else if k == "binary_expression"@ { KindView::BinaryOp(operator_of(t, n)) }
    else if k == "unary_expression"@ { KindView::UnaryOp(operator_of(t, n)) }
    else if k == "assignment_expression"@ || k == "compound_assignment_expr"@ { KindView::Assignment(operator_of(t, n)) }
    else if k == "call_expression"@ { KindView::Call(None, false) }
    else if k == "method_call_expression"@ { KindView::Call(None, true) }
    else if k == "field_expression"@ { KindView::MemberAccess(child_text(t, n, "field"@)) }
    else if k == "index_expression"@ { KindView::IndexAccess }
    else if k == "identifier"@ || k == "type_identifier"@ || k == "field_identifier"@ { ident(t, n) }
    else if k == "await_expression"@ { KindView::Await }
    else if k == "integer_literal"@ { lit_int(t, n) }
    else if k == "float_literal"@ { lit_float(t, n) }
    else if k == "string_literal"@ || k == "raw_string_literal"@ { lit_string(t, n) }
    else if k == "char_literal"@ { KindView::Literal(LiteralView::Char(char_value(t.text_of(n)))) }
    else if k == "boolean_literal"@ { KindView::Literal(LiteralView::Bool(t.text_of(n) == "true"@)) }
    else if k == "array_expression"@ { KindView::Literal(LiteralView::Array) }
    else if k == "use_declaration"@ { KindView::Import(use_path(t, n)) }
    else if k == "attribute_item"@ || k == "inner_attribute_item"@ { KindView::Attribute(attribute_name(t, n)) }
    else if k == "macro_invocation"@ { KindView::Macro(child_text(t, n, "macro"@)) }
    else if k == "line_comment"@ || k == "block_comment"@ {
        KindView::Comment(text_starts(t.text_of(n), "///"@) || text_starts(t.text_of(n), "//!"@))
    }
    else if k == "type_item"@ { KindView::TypeAnnotation(child_text(t, n, "name"@)) }
    else if k == "generic_type"@ || k == "type_parameters"@ { KindView::GenericParam(t.text_of(n)) }
    else if k == "ERROR"@ { error_kind() }
    else { unknown(k) }
}

/// The signature of a Python function.
pub open spec fn python_signature(t: &SyntaxTree, n: int) -> SignatureView {
    sig(child_text(t, n, "name"@), None, false, has_child_kind(t, n, "async"@), Visibility::Public)
}

/// Python grammar kinds.
pub open spec fn python_kind(t: &SyntaxTree, n: int, k: Seq<char>) -> KindView {
    if k == "module"@ { KindView::Root }
    else if k == "class_definition"@ { KindView::Class(child_text(t, n, "name"@), false) }
    else if k == "function_definition"@ { KindView::Function(python_signature(t, n)) }
    else if k == "lambda"@ { KindView::Lambda(Seq::empty()) }
    else if k == "parameters"@ || k == "default_parameter"@ || k == "typed_parameter"@ {
        KindView::Parameter(child_text(t, n, "name"@), None, false)
    }
    else if k == "block"@ { KindView::Block(global()) }
    else if k == "assignment"@ { KindView::Assignment("="@) }
    else if k == "augmented_assignment"@ { KindView::Assignment(operator_of(t, n)) }
    else if k == "if_statement"@ { KindView::If }
    else if k == "elif_clause"@ || k == "else_clause"@ { KindView::Else }
    else if k == "while_statement"@ { KindView::While }
    else if k == "for_statement"@ { KindView::For }
    else if k == "match_statement"@ { KindView::Match }
    else if k == "case_clause"@ { KindView::MatchArm }
    else if k == "return_statement"@ { KindView::Return }
    else if k == "break_statement"@ { KindView::Break }
    else if k == "continue_statement"@ { KindView::Continue }
    else if k == "try_statement"@ { KindView::Try }
    else if k == "except_clause"@ { KindView::Catch }
    else if k == "finally_clause"@ { KindView::Finally }
    else if k == "raise_statement"@ { KindView::Throw }
    else if k == "binary_operator"@ || k == "comparison_operator"@ || k == "boolean_operator"@ { KindView::BinaryOp(operator_of(t, n)) }
    else if k == "unary_operator"@ || k == "not_operator"@ { KindView::UnaryOp(operator_of(t, n)) }
    else if k == "call"@ { KindView::Call(None, false) }
    else if k == "attribute"@ { KindView::MemberAccess(child_text(t, n, "attribute"@)) }
    else if k == "subscript"@ { KindView::IndexAccess }
    else if k == "identifier"@ { ident(t, n) }
    else if k == "await"@ { KindView::Await }
    else if k == "yield"@ { KindView::Yield }
    else if k == "integer"@ { lit_int(t, n) }
    else if k == "float"@ { lit_float(t, n) }
    else if k == "string"@ || k == "concatenated_string"@ { lit_string(t, n) }
    else if k == "true"@ || k == "false"@ { KindView::Literal(LiteralView::Bool(k == "true"@)) }
    else if k == "none"@ { KindView::Literal(LiteralView::Null) }
    else if k == "list"@ { KindView::Literal(LiteralView::Array) }
    else if k == "dictionary"@ { KindView::Literal(LiteralView::Object) }
    else if k == "import_statement"@ || k == "import_from_statement"@ { KindView::Import(t.text_of(n)) }
    else if k == "decorator"@ { KindView::Attribute(decorator_name(t, n)) }
    else if k == "comment"@ { KindView::Comment(false) }
    else if k == "expression_statement"@ && is_docstring(t, n) { KindView::Comment(true) }
    else if k == "ERROR"@ { error_kind() }
    else { unknown(k) }
}

/// The signature of a JavaScript function or method.
pub open spec fn js_signature(t: &SyntaxTree, n: int) -> SignatureView {
    sig(child_text(t, n, "name"@), None, has_child_kind(t, n, "static"@), has_child_kind(t, n, "async"@), Visibility::Public)
}

/// JavaScript and TypeScript grammar kinds.
pub open spec fn js_kind(t: &SyntaxTree, n: int, k: Seq<char>) -> KindView {
    if k == "program"@ { KindView::Root }
    else if k == "class_declaration"@ || k == "class"@ { KindView::Class(child_text(t, n, "name"@), false) }
    else if k == "function_declaration"@ || k == "function"@ || k == "generator_function_declaration"@ {
        KindView::Function(js_signature(t, n))
    }
    else if k == "method_definition"@ { KindView::Function(js_signature(t, n)) }
    else if k == "arrow_function"@ { KindView::Lambda(Seq::empty()) }
    else if k == "formal_parameters"@ || k == "required_parameter"@ || k == "optional_parameter"@ {
        KindView::Parameter(child_text(t, n, "pattern"@), None, false)
    }
    else if k == "statement_block"@ { KindView::Block(global()) }
    else if k == "variable_declaration"@ || k == "lexical_declaration"@ {
        KindView::Variable(Seq::empty(), None, global(), !text_starts(t.text_of(n), "const"@))
    }
    else if k == "variable_declarator"@ { KindView::Variable(child_text(t, n, "name"@), None, global(), true) }
    else if k == "public_field_definition"@ || k == "field_definition"@ {
        KindView::Field(child_text(t, n, "property"@), None, Visibility::Public)
    }
    else if k == "if_statement"@ { KindView::If }
    else if k == "else_clause"@ { KindView::Else }
    else if k == "while_statement"@ { KindView::While }
    else if k == "for_statement"@ || k == "for_in_statement"@ || k == "for_of_statement"@ { KindView::For }
    else if k == "do_statement"@ { KindView::Loop }
    else if k == "switch_statement"@ { KindView::Match }
    else if k == "switch_case"@ || k == "switch_default"@ { KindView::MatchArm }
    else if k == "return_statement"@ { KindView::Return }
    else if k == "break_statement"@ { KindView::Break }
    else if k == "continue_statement"@ { KindView::Continue }
    else if k == "try_statement"@ { KindView::Try }
    else if k == "catch_clause"@ { KindView::Catch }
    else if k == "finally_clause"@ { KindView::Finally }
    else if k == "throw_statement"@ { KindView::Throw }
    else if k == "binary_expression"@ { KindView::BinaryOp(operator_of(t, n)) }
    else if k == "unary_expression"@ || k == "update_expression"@ { KindView::UnaryOp(operator_of(t, n)) }
    else if k == "assignment_expression"@ || k == "augmented_assignment_expression"@ { KindView::Assignment(operator_of(t, n)) }
    else if k == "call_expression"@ || k == "new_expression"@ { KindView::Call(None, false) }
    else if k == "member_expression"@ { KindView::MemberAccess(child_text(t, n, "property"@)) }
    else if k == "subscript_expression"@ { KindView::IndexAccess }
    else if k == "identifier"@ || k == "property_identifier"@ || k == "shorthand_property_identifier"@ { ident(t, n) }
    else if k == "await_expression"@ { KindView::Await }
    else if k == "yield_expression"@ { KindView::Yield }
    else if k == "number"@ { lit_number(t, n) }
    else if k == "string"@ || k == "template_string"@ { lit_string(t, n) }
    else if k == "true"@ || k == "false"@ { KindView::Literal(LiteralView::Bool(k == "true"@)) }
    else if k == "null"@ || k == "undefined"@ { KindView::Literal(LiteralView::Null) }
    else if k == "array"@ { KindView::Literal(LiteralView::Array) }
    else if k == "object"@ { KindView::Literal(LiteralView::Object) }
    else if k == "regex"@ { KindView::Literal(LiteralView::Regex(t.text_of(n))) }
    else if k == "import_statement"@ || k == "import"@ { KindView::Import(t.text_of(n)) }
    else if k == "export_statement"@ { KindView::Import("export"@) }
    else if k == "comment"@ { KindView::Comment(text_starts(t.text_of(n), "/**"@)) }
    else if k == "ERROR"@ { error_kind() }
    else { unknown(k) }
}

/// The signature of a Go function.
pub open spec fn go_signature(t: &SyntaxTree, n: int) -> SignatureView {
    sig(child_text(t, n, "name"@), None, false, false, Visibility::Public)
}

/// Go grammar kinds.
pub open spec fn go_kind(t: &SyntaxTree, n: int, k: Seq<char>) -> KindView {
    if k == "source_file"@ { KindView::Root }
    else if k == "package_clause"@ { KindView::Module(child_text(t, n, "name"@)) }
    else if k == "type_declaration"@ || k == "type_spec"@ { KindView::Struct(child_text(t, n, "name"@)) }
    else if k == "interface_type"@ { KindView::Trait(t.text_of(n)) }
    else if k == "function_declaration"@ || k == "method_declaration"@ { KindView::Function(go_signature(t, n)) }
    else if k == "func_literal"@ { KindView::Lambda(Seq::empty()) }
    else if k == "parameter_declaration"@ {
        KindView::Parameter(t.text_of(n), None, has_child_kind(t, n, "variadic_parameter_declaration"@))
    }
    else if k == "block"@ { KindView::Block(global()) }
    else if k == "short_var_declaration"@ || k == "var_declaration"@ { KindView::Variable(Seq::empty(), None, global(), true) }
    else if k == "const_declaration"@ { KindView::Variable(Seq::empty(), None, global(), false) }
    else if k == "if_statement"@ { KindView::If }
    else if k == "for_statement"@ { KindView::For }
    else if k == "switch_statement"@ || k == "type_switch_statement"@ { KindView::Match }
    else if k == "expression_case"@ || k == "type_case"@ || k == "default_case"@ { KindView::MatchArm }
    else if k == "return_statement"@ { KindView::Return }
    else if k == "break_statement"@ { KindView::Break }
    else if k == "continue_statement"@ { KindView::Continue }
    else if k == "go_statement"@ { KindView::Await }
    else if k == "defer_statement"@ { KindView::Finally }
    else if k == "binary_expression"@ { KindView::BinaryOp(operator_of(t, n)) }
    else if k == "unary_expression"@ { KindView::UnaryOp(operator_of(t, n)) }
    else if k == "assignment_statement"@ { KindView::Assignment(operator_of(t, n)) }
    else if k == "call_expression"@ { KindView::Call(None, false) }
    else if k == "selector_expression"@ { KindView::MemberAccess(child_text(t, n, "field"@)) }
    else if k == "index_expression"@ { KindView::IndexAccess }
    else if k == "identifier"@ || k == "field_identifier"@ || k == "package_identifier"@ || k == "type_identifier"@ { ident(t, n) }
    else if k == "int_literal"@ { lit_int(t, n) }
    else if k == "float_literal"@ { lit_float(t, n) }
    else if k == "interpreted_string_literal"@ || k == "raw_string_literal"@ { lit_string(t, n) }
    else if k == "true"@ || k == "false"@ { KindView::Literal(LiteralView::Bool(k == "true"@)) }
    else if k == "nil"@ { KindView::Literal(LiteralView::Null) }
    else if k == "import_declaration"@ { KindView::Import(t.text_of(n)) }
    else if k == "comment"@ { KindView::Comment(text_starts(t.text_of(n), "//"@)) }
    else if k == "ERROR"@ { error_kind() }
    else { unknown(k) }
}

/// Java visibility from the modifiers.
pub open spec fn java_visibility(t: &SyntaxTree, n: int) -> Visibility {
    if has_modifier(t, n, "public"@) { Visibility::Public }
    else if has_modifier(t, n, "protected"@) { Visibility::Protected }
    else if has_modifier(t, n, "private"@) { Visibility::Private }
    else { Visibility::Package }
}

/// The signature of a Java method or constructor.
pub open spec fn java_signature(t: &SyntaxTree, n: int) -> SignatureView {
    sig(child_text(t, n, "name"@), child_opt_text(t, n, "type"@), has_modifier(t, n, "static"@), false, java_visibility(t, n))
}

/// Java grammar kinds.
pub open spec fn java_kind(t: &SyntaxTree, n: int, k: Seq<char>) -> KindView {
    if k == "program"@ { KindView::Root }
    else if k == "package_declaration"@ { KindView::Module(t.text_of(n)) }
    else if k == "class_declaration"@ { KindView::Class(child_text(t, n, "name"@), has_modifier(t, n, "abstract"@)) }
    else if k == "interface_declaration"@ { KindView::Trait(child_text(t, n, "name"@)) }
    else if k == "enum_declaration"@ { KindView::Enum(child_text(t, n, "name"@)) }
    else if k == "method_declaration"@ || k == "constructor_declaration"@ { KindView::Function(java_signature(t, n)) }
    else if k == "lambda_expression"@ { KindView::Lambda(Seq::empty()) }
    else if k == "formal_parameter"@ || k == "spread_parameter"@ {
        KindView::Parameter(child_text(t, n, "name"@), None, k == "spread_parameter"@)
    }
    else if k == "block"@ { KindView::Block(global()) }
    else if k == "local_variable_declaration"@ || k == "variable_declarator"@ {
        KindView::Variable(child_text(t, n, "name"@), None, global(), !has_modifier(t, n, "final"@))
    }
    else if k == "field_declaration"@ { KindView::Field(Seq::empty(), None, java_visibility(t, n)) }
    else if k == "if_statement"@ { KindView::If }
    else if k == "while_statement"@ { KindView::While }
    else if k == "for_statement"@ || k == "enhanced_for_statement"@ { KindView::For }
    else if k == "do_statement"@ { KindView::Loop }
    else if k == "switch_expression"@ { KindView::Match }
    else if k == "switch_block_statement_group"@ || k == "switch_rule"@ { KindView::MatchArm }
    else if k == "return_statement"@ { KindView::Return }
    else if k == "break_statement"@ { KindView::Break }
    else if k == "continue_statement"@ { KindView::Continue }
    else if k == "try_statement"@ || k == "try_with_resources_statement"@ { KindView::Try }
    else if k == "catch_clause"@ { KindView::Catch }
    else if k == "finally_clause"@ { KindView::Finally }
    else if k == "throw_statement"@ { KindView::Throw }
    else if k == "binary_expression"@ { KindView::BinaryOp(operator_of(t, n)) }
    else if k == "unary_expression"@ || k == "update_expression"@ { KindView::UnaryOp(operator_of(t, n)) }
    else if k == "assignment_expression"@ { KindView::Assignment(operator_of(t, n)) }
    else if k == "method_invocation"@ || k == "object_creation_expression"@ { KindView::Call(None, true) }
    else if k == "field_access"@ { KindView::MemberAccess(child_text(t, n, "field"@)) }
    else if k == "array_access"@ { KindView::IndexAccess }
    else if k == "identifier"@ || k == "type_identifier"@ { ident(t, n) }
    else if k == "decimal_integer_literal"@ || k == "hex_integer_literal"@ || k == "octal_integer_literal"@ || k == "binary_integer_literal"@ {
        lit_int(t, n)
    }
    else if k == "decimal_floating_point_literal"@ || k == "hex_floating_point_literal"@ { lit_float(t, n) }
    else if k == "string_literal"@ { lit_string(t, n) }
    else if k == "character_literal"@ { KindView::Literal(LiteralView::Char(char_value(t.text_of(n)))) }
    else if k == "true"@ || k == "false"@ { KindView::Literal(LiteralView::Bool(k == "true"@)) }
    else if k == "null_literal"@ { KindView::Literal(LiteralView::Null) }
    else if k == "array_initializer"@ { KindView::Literal(LiteralView::Array) }
    else if k == "import_declaration"@ { KindView::Import(t.text_of(n)) }
    else if k == "marker_annotation"@ || k == "annotation"@ { KindView::Attribute(child_text(t, n, "name"@)) }
    else if k == "line_comment"@ || k == "block_comment"@ { KindView::Comment(text_starts(t.text_of(n), "/**"@)) }
    else if k == "ERROR"@ { error_kind() }
    else { unknown(k) }
}

/// The name a C/C++ function definition declares: the declarator's declarator.
pub open spec fn c_function_name(t: &SyntaxTree, n: int) -> Seq<char> {
    match t.field_child(n, "declarator"@) {
        Some(d) => child_text(t, d as int, "declarator"@),
        None => Seq::empty(),
    }
}

/// The signature of a C/C++ function.
pub open spec fn c_signature(t: &SyntaxTree, n: int) -> SignatureView {
    sig(c_function_name(t, n), child_opt_text(t, n, "type"@), has_child_kind(t, n, "storage_class_specifier"@), false, Visibility::Public)
}

/// C and C++ grammar kinds.
pub open spec fn c_kind(t: &SyntaxTree, n: int, k: Seq<char>) -> KindView {
    if k == "translation_unit"@ { KindView::Root }
    else if k == "namespace_definition"@ { KindView::Module(child_text(t, n, "name"@)) }
    else if k == "class_specifier"@ { KindView::Class(child_text(t, n, "name"@), false) }
    else if k == "struct_specifier"@ { KindView::Struct(child_text(t, n, "name"@)) }
    else if k == "enum_specifier"@ { KindView::Enum(child_text(t, n, "name"@)) }
    else if k == "function_definition"@ || k == "function_declarator"@ { KindView::Function(c_signature(t, n)) }
    else if k == "lambda_expression"@ { KindView::Lambda(Seq::empty()) }
    else if k == "parameter_declaration"@ { KindView::Parameter(t.text_of(n), None, false) }
    else if k == "compound_statement"@ { KindView::Block(global()) }
    else if k == "declaration"@ || k == "init_declarator"@ { KindView::Variable(Seq::empty(), None, global(), true) }
    else if k == "field_declaration"@ { KindView::Field(Seq::empty(), None, Visibility::Public) }
    else if k == "if_statement"@ { KindView::If }
    else if k == "else_clause"@ { KindView::Else }
    else if k == "while_statement"@ { KindView::While }
    else if k == "for_statement"@ || k == "for_range_loop"@ { KindView::For }
    else if k == "do_statement"@ { KindView::Loop }
    else if k == "switch_statement"@ { KindView::Match }
    else if k == "case_statement"@ { KindView::MatchArm }
    else if k == "return_statement"@ { KindView::Return }
    else if k == "break_statement"@ { KindView::Break }
    else if k == "continue_statement"@ { KindView::Continue }
    else if k == "try_statement"@ { KindView::Try }
    else if k == "catch_clause"@ { KindView::Catch }
    else if k == "throw_statement"@ { KindView::Throw }
    else if k == "binary_expression"@ { KindView::BinaryOp(operator_of(t, n)) }
    else if k == "unary_expression"@ || k == "update_expression"@ { KindView::UnaryOp(operator_of(t, n)) }
    else if k == "assignment_expression"@ { KindView::Assignment(operator_of(t, n)) }
    else if k == "call_expression"@ { KindView::Call(None, false) }
    else if k == "field_expression"@ { KindView::MemberAccess(child_text(t, n, "field"@)) }
    else if k == "subscript_expression"@ { KindView::IndexAccess }
    else if k == "identifier"@ || k == "field_identifier"@ || k == "type_identifier"@ || k == "namespace_identifier"@ { ident(t, n) }
    else if k == "number_literal"@ { lit_number(t, n) }
    else if k == "string_literal"@ || k == "raw_string_literal"@ { lit_string(t, n) }
    else if k == "char_literal"@ { KindView::Literal(LiteralView::Char(char_value(t.text_of(n)))) }
    else if k == "true"@ || k == "false"@ { KindView::Literal(LiteralView::Bool(k == "true"@)) }
    else if k == "null"@ || k == "nullptr"@ { KindView::Literal(LiteralView::Null) }
    else if k == "initializer_list"@ { KindView::Literal(LiteralView::Array) }
    else if k == "preproc_include"@ { KindView::Import(t.text_of(n)) }
    else if k == "comment"@ { KindView::Comment(text_starts(t.text_of(n), "/**"@) || text_starts(t.text_of(n), "///"@)) }
    else if k == "ERROR"@ { error_kind() }
    else { unknown(k) }
}

/// The signature of a Ruby method, or of a Bash function.
pub open spec fn named_signature(t: &SyntaxTree, n: int) -> SignatureView {
    sig(child_text(t, n, "name"@), None, false, false, Visibility::Public)
}

/// Ruby grammar kinds.
pub open spec fn ruby_kind(t: &SyntaxTree, n: int, k: Seq<char>) -> KindView {
    if k == "program"@ { KindView::Root }
    else if k == "module"@ { KindView::Module(child_text(t, n, "name"@)) }
    else if k == "class"@ { KindView::Class(child_text(t, n, "name"@), false) }
    else if k == "method"@ || k == "singleton_method"@ { KindView::Function(named_signature(t, n)) }
    else if k == "lambda"@ || k == "block"@ || k == "do_block"@ { KindView::Lambda(Seq::empty()) }
    else if k == "method_parameters"@ || k == "block_parameters"@ { KindView::Parameter(t.text_of(n), None, false) }
    else if k == "body_statement"@ { KindView::Block(global()) }
    else if k == "assignment"@ { KindView::Assignment("="@) }
    else if k == "if"@ || k == "unless"@ { KindView::If }
    else if k == "elsif"@ || k == "else"@ { KindView::Else }
    else if k == "while"@ || k == "until"@ { KindView::While }
    else if k == "for"@ { KindView::For }
    else if k == "case"@ { KindView::Match }
    else if k == "when"@ { KindView::MatchArm }
    else if k == "return"@ { KindView::Return }
    else if k == "break"@ { KindView::Break }
    else if k == "next"@ { KindView::Continue }
    else if k == "begin"@ { KindView::Try }
    else if k == "rescue"@ { KindView::Catch }
    else if k == "ensure"@ { KindView::Finally }
    else if k == "raise"@ { KindView::Throw }
    else if k == "yield"@ { KindView::Yield }
    else if k == "binary"@ { KindView::BinaryOp(operator_of(t, n)) }
    else if k == "unary"@ { KindView::UnaryOp(operator_of(t, n)) }
    else if k == "call"@ || k == "method_call"@ { KindView::Call(None, true) }
    else if k == "element_reference"@ { KindView::IndexAccess }
    else if k == "identifier"@ || k == "constant"@ || k == "instance_variable"@ || k == "class_variable"@ || k == "global_variable"@ {
        ident(t, n)
    }
    else if k == "integer"@ { lit_int(t, n) }
    else if k == "float"@ { lit_float(t, n) }
    else if k == "string"@ || k == "symbol"@ { lit_string(t, n) }
    else if k == "true"@ || k == "false"@ { KindView::Literal(LiteralView::Bool(k == "true"@)) }
    else if k == "nil"@ { KindView::Literal(LiteralView::Null) }
    else if k == "array"@ { KindView::Literal(LiteralView::Array) }
    else if k == "hash"@ { KindView::Literal(LiteralView::Object) }
    else if k == "regex"@ { KindView::Literal(LiteralView::Regex(t.text_of(n))) }
    else if k == "comment"@ { KindView::Comment(false) }
    else if k == "ERROR"@ { error_kind() }
    else { unknown(k) }
}

/// JSON grammar kinds.
pub open spec fn json_kind(t: &SyntaxTree, n: int, k: Seq<char>) -> KindView {
    if k == "document"@ { KindView::Root }
    else if k == "object"@ { KindView::Literal(LiteralView::Object) }
    else if k == "array"@ { KindView::Literal(LiteralView::Array) }
    else if k == "pair"@ { KindView::Field(Seq::empty(), None, Visibility::Public) }
    else if k == "string"@ { lit_string(t, n) }
    else if k == "number"@ { lit_number(t, n) }
    else if k == "true"@ || k == "false"@ { KindView::Literal(LiteralView::Bool(k == "true"@)) }
    else if k == "null"@ { KindView::Literal(LiteralView::Null) }
    else if k == "ERROR"@ { error_kind() }
    else { unknown(k) }
}

/// HTML grammar kinds.
pub open spec fn html_kind(t: &SyntaxTree, n: int, k: Seq<char>) -> KindView {
    if k == "document"@ || k == "fragment"@ { KindView::Root }
    else if k == "element"@ || k == "self_closing_tag"@ { KindView::Unknown(tag_name(t, n)) }
    else if k == "attribute"@ { KindView::Attribute(child_text(t, n, "name"@)) }
    else if k == "text"@ { lit_string(t, n) }
    else if k == "comment"@ { KindView::Comment(false) }
    else if k == "ERROR"@ { error_kind() }
    else { unknown(k) }
}

/// CSS grammar kinds.
pub open spec fn css_kind(t: &SyntaxTree, n: int, k: Seq<char>) -> KindView {
    if k == "stylesheet"@ { KindView::Root }
    else if k == "rule_set"@ { KindView::Block(global()) }
    else if k == "declaration"@ { KindView::Variable(Seq::empty(), None, global(), true) }
    else if k == "property_name"@ || k == "class_name"@ || k == "id_name"@ || k == "tag_name"@ { ident(t, n) }
    else if k == "integer_value"@ || k == "float_value"@ { lit_float(t, n) }
    else if k == "string_value"@ { lit_string(t, n) }
    else if k == "color_value"@ { lit_string(t, n) }
    else if k == "import_statement"@ { KindView::Import(t.text_of(n)) }
    else if k == "comment"@ { KindView::Comment(false) }
    else if k == "ERROR"@ { error_kind() }
    else { unknown(k) }
}

/// Bash grammar kinds.
pub open spec fn bash_kind(t: &SyntaxTree, n: int, k: Seq<char>) -> KindView {
    if k == "program"@ { KindView::Root }
    else if k == "function_definition"@ { KindView::Function(named_signature(t, n)) }
    else if k == "compound_statement"@ { KindView::Block(global()) }
    else if k == "variable_assignment"@ { KindView::Variable(Seq::empty(), None, global(), true) }
    else if k == "if_statement"@ { KindView::If }
    else if k == "elif_clause"@ || k == "else_clause"@ { KindView::Else }
    else if k == "while_statement"@ || k == "until_statement"@ { KindView::While }
    else if k == "for_statement"@ || k == "c_style_for_statement"@ { KindView::For }
    else if k == "case_statement"@ { KindView::Match }
    else if k == "case_item"@ { KindView::MatchArm }
    else if k == "command"@ { KindView::Call(None, false) }
    else if k == "command_name"@ || k == "variable_name"@ || k == "word"@ { ident(t, n) }
    else if k == "raw_string"@ || k == "string"@ || k == "concatenation"@ { lit_string(t, n) }
    else if k == "number"@ { lit_int(t, n) }
    else if k == "comment"@ { KindView::Comment(false) }
    else if k == "ERROR"@ { error_kind() }
    else { unknown(k) }
}

/// YAML and TOML grammar kinds.
pub open spec fn config_kind(t: &SyntaxTree, n: int, k: Seq<char>) -> KindView {
    if k == "document"@ || k == "stream"@ { KindView::Root }
    else if k == "block_mapping"@ || k == "flow_mapping"@ || k == "table"@ || k == "inline_table"@ { KindView::Literal(LiteralView::Object) }
    else if k == "block_sequence"@ || k == "flow_sequence"@ || k == "array"@ { KindView::Literal(LiteralView::Array) }
    else if k == "block_mapping_pair"@ || k == "pair"@ { KindView::Field(Seq::empty(), None, Visibility::Public) }
    else if k == "string_scalar"@ || k == "single_quote_scalar"@ || k == "double_quote_scalar"@ || k == "string"@
        || k == "basic_string"@ || k == "literal_string"@ { lit_string(t, n) }
    else if k == "integer_scalar"@ || k == "integer"@ { lit_int(t, n) }
    else if k == "float_scalar"@ || k == "float"@ { lit_float(t, n) }
    else if k == "boolean_scalar"@ || k == "boolean"@ {
        KindView::Literal(LiteralView::Bool(lowercase_of(t.text_of(n)) == "true"@ || lowercase_of(t.text_of(n)) == "yes"@))
    }
    else if k == "null_scalar"@ { KindView::Literal(LiteralView::Null) }
    else if k == "comment"@ { KindView::Comment(false) }
    else if k == "ERROR"@ { error_kind() }
    else { unknown(k) }
}

/// Markdown grammar kinds.
pub open spec fn markdown_kind(t: &SyntaxTree, n: int, k: Seq<char>) -> KindView {
    if k == "document"@ { KindView::Root }
    else if k == "section"@ || k == "paragraph"@ || k == "heading"@ { KindView::Block(global()) }
    else if k == "code_span"@ || k == "fenced_code_block"@ || k == "indented_code_block"@ { lit_string(t, n) }
    else if k == "link"@ || k == "image"@ { KindView::Import(t.text_of(n)) }
    else if k == "html_block"@ { KindView::Comment(false) }
    else if k == "ERROR"@ { error_kind() }
    else { unknown(k) }
}

/// The glyph of a Rholang operator rule.
pub open spec fn rholang_glyph(k: Seq<char>) -> Seq<char> {
    if k == "add"@ { "+"@ }
    else if k == "sub"@ || k == "neg"@ { "-"@ }
    else if k == "mult"@ { "*"@ }
    else if k == "div"@ { "/"@ }
    else if k == "mod"@ { "%"@ }
    else if k == "concat"@ { "++"@ }
    else if k == "diff"@ { "--"@ }
    else if k == "interpolation"@ { "%%"@ }
    else if k == "eq"@ { "=="@ }
    else if k == "neq"@ { "!="@ }
    else if k == "lt"@ { "<"@ }
    else if k == "lte"@ { "<="@ }
    else if k == "gt"@ { ">"@ }
    else if k == "gte"@ { ">="@ }
    else if k == "and"@ { "and"@ }
    else if k == "or"@ { "or"@ }
    else if k == "matches"@ { "matches"@ }
    else if k == "disjunction"@ { "\\/"@ }
    else if k == "conjunction"@ { "/\\"@ }
    else if k == "not"@ { "not"@ }
    else if k == "negation"@ { "~"@ }
    else { "?"@ }
}

/// The signature of a Rholang process abstraction: named by its `name` child,
/// or by `default_name` when it has none.
pub open spec fn rholang_signature(t: &SyntaxTree, n: int, default_name: Seq<char>) -> SignatureView {
    sig(match t.field_child(n, "name"@) { Some(c) => t.text_of(c as int), None => default_name },
        None, false, false, Visibility::Public)
}

/// The URI of a `name_decl`'s `uri_literal` child, backticks trimmed.
pub open spec fn rholang_uri(t: &SyntaxTree, n: int) -> Option<Seq<char>> {
    match first_child_where(t, n, KindTest::UriLiteral) {
        Some(c) => Some(trimmed(t.text_of(c as int), '`')),
        None => None,
    }
}

/// An ASCII digit.
pub open spec fn is_digit(c: char) -> bool {
    '0' <= c <= '9'
}

/// Whether the character at `i` continues the leading numeric run of a Rholang
/// literal: a digit, a leading minus, and for a float also `.`, `e`, `E`, `+`.
pub open spec fn numeric_char(s: Seq<char>, i: int, float: bool) -> bool {
    is_digit(s[i]) || (float && (s[i] == '.' || s[i] == 'e' || s[i] == 'E' || s[i] == '+')) || (i == 0 && s[i] == '-')
}

/// End of the numeric run of `s` that starts at `i`.
pub open spec fn run_end(s: Seq<char>, i: int, float: bool) -> int
    decreases s.len() - i,
{
    if 0 <= i < s.len() && numeric_char(s, i, float) { run_end(s, i + 1, float) } else { i }
}

/// The value of a Rholang integer literal: its leading `-?digits`, 0 where
/// that does not parse.
pub open spec fn rholang_int(s: Seq<char>) -> i64 {
    match radix_value(s.subrange(0, run_end(s, 0, false)), 10) {
        Some(x) => x,
        None => 0,
    }
}

/// The spelling of a Rholang float literal: its leading numeric run.
pub open spec fn rholang_float(s: Seq<char>) -> Seq<char> {
    s.subrange(0, run_end(s, 0, true))
}

/// Constructs whose `names` list binds formal parameters.
pub open spec fn rholang_binder(k: Seq<char>) -> bool {
    k == "contract"@ || k == "constructor_decl"@ || k == "method_decl"@ || k == "default_decl"@
        || k == "linear_bind"@ || k == "repeated_bind"@ || k == "peek_bind"@ || k == "decl"@
}

/// The first named child of `n`, if any.
pub open spec fn first_named(t: &SyntaxTree, n: int) -> Option<usize> {
    if t.named_children_of(n).len() > 0 { Some(t.named_children_of(n)[0]) } else { None }
}

/// A Rholang `var` by position: a definition (`Variable`) when `new`- or
/// `let`-bound, a `Parameter` when it is a formal or a received name (possibly
/// under a `@` quote), a use (`Identifier`) otherwise.
pub open spec fn rholang_var(t: &SyntaxTree, n: int) -> KindView {
    let name = t.text_of(n);
    let def = KindView::Variable(name, None, global(), false);
    let use_ = KindView::Identifier(name, None);
    match t.node(n).parent {
        None => use_,
        Some(p) => {
            if t.node(p as int).kind == "name_decl"@ {
                def
            } else if t.node(p as int).kind == "let_var_decl"@ && first_named(t, p as int) == Some(n as usize) {
                def
            } else {
                let container = if t.node(p as int).kind == "quote"@ { t.node(p as int).parent } else { Some(p) };
                match container {
                    Some(c) if t.node(c as int).kind == "names"@ => match t.node(c as int).parent {
                        Some(gp) if rholang_binder(t.node(gp as int).kind) => KindView::Parameter(name, None, false),
                        _ => use_,
                    },
                    _ => use_,
                }
            }
        },
    }
}

/// Rholang grammar kinds.
pub open spec fn rholang_kind(t: &SyntaxTree, n: int, k: Seq<char>) -> KindView {
    if k == "source_file"@ { KindView::Root }
    else if k == "contract"@ { KindView::Function(rholang_signature(t, n, "contract"@)) }
    else if k == "constructor_decl"@ { KindView::Function(rholang_signature(t, n, "constructor"@)) }
    else if k == "method_decl"@ { KindView::Function(rholang_signature(t, n, "method"@)) }
    else if k == "default_decl"@ { KindView::Function(rholang_signature(t, n, "default"@)) }
    else if k == "agent_block"@ { KindView::Class(child_text(t, n, "name"@), false) }
    else if k == "new"@ || k == "let"@ || k == "input"@ || k == "block"@ || k == "par"@ || k == "bundle"@
        || k == "sync_send_cont"@ || k == "non_empty_cont"@ || k == "empty_cont"@ { KindView::Block(global()) }
    else if k == "ifElse"@ { KindView::If }
    else if k == "match"@ || k == "choice"@ { KindView::Match }
    else if k == "case"@ || k == "branch"@ { KindView::MatchArm }
    else if k == "send"@ || k == "send_sync"@ { KindView::Call(None, false) }
    else if k == "send_method"@ || k == "method"@ || k == "send_method_source"@ { KindView::Call(None, true) }
    else if k == "linear_bind"@ || k == "repeated_bind"@ || k == "peek_bind"@ || k == "receive_send_source"@
        || k == "send_receive_source"@ { KindView::Call(None, false) }
    else if k == "simple_source"@ { ident(t, n) }
    else if k == "name_decl"@ {
        match rholang_uri(t, n) {
            Some(u) => KindView::Import(u),
            None => KindView::Block(global()),
        }
    }
    else if k == "let_var_decl"@ || k == "decl"@ { KindView::Block(global()) }
    else if k == "var"@ { rholang_var(t, n) }
    else if k == "wildcard"@ { KindView::Identifier("_"@, None) }
    else if k == "var_ref"@ { ident(t, n) }
    else if k == "eval"@ { KindView::UnaryOp("*"@) }
    else if k == "quote"@ { KindView::UnaryOp("@"@) }
    else if k == "add"@ || k == "sub"@ || k == "mult"@ || k == "div"@ || k == "mod"@ || k == "concat"@ || k == "diff"@
        || k == "interpolation"@ || k == "eq"@ || k == "neq"@ || k == "lt"@ || k == "lte"@ || k == "gt"@ || k == "gte"@
        || k == "and"@ || k == "or"@ || k == "matches"@ || k == "disjunction"@ || k == "conjunction"@ {
        KindView::BinaryOp(rholang_glyph(k))
    }
    else if k == "not"@ || k == "neg"@ || k == "negation"@ { KindView::UnaryOp(rholang_glyph(k)) }
    else if k == "simple_type"@ { KindView::TypeAnnotation(t.text_of(n)) }
    else if k == "bool_literal"@ { KindView::Literal(LiteralView::Bool(t.text_of(n) == "true"@)) }
    else if k == "signed_int_literal"@ || k == "unsigned_int_literal"@ || k == "bigint_literal"@ || k == "long_literal"@ {
        KindView::Literal(LiteralView::Integer(rholang_int(t.text_of(n))))
    }
    else if k == "bigrat_literal"@ || k == "float_literal"@ || k == "fixed_point_literal"@ {
        KindView::Literal(LiteralView::Float(rholang_float(t.text_of(n))))
    }
    else if k == "string_literal"@ { lit_string(t, n) }
    else if k == "uri_literal"@ { lit_string(t, n) }
    else if k == "nil"@ || k == "unit"@ { KindView::Literal(LiteralView::Null) }
    else if k == "list"@ || k == "set"@ || k == "tuple"@ || k == "collection"@ { KindView::Literal(LiteralView::Array) }
    else if k == "map"@ || k == "pathmap"@ { KindView::Literal(LiteralView::Object) }
    else if k == "key_value_pair"@ { KindView::Field(Seq::empty(), None, Visibility::Public) }
    else if k == "bundle_read"@ || k == "bundle_write"@ || k == "bundle_equiv"@ || k == "bundle_read_write"@ {
        KindView::Attribute(k)
    }
    else if k == "line_comment"@ || k == "block_comment"@ { KindView::Comment(false) }
    else if k == "ERROR"@ { error_kind() }
    else { unknown(k) }
}

/// The MeTTa wrappers a head or operand is reached through.
pub open spec fn metta_wrapper(k: Seq<char>) -> bool {
    k == "expression"@ || k == "atom_expression"@ || k == "operator"@
}

/// The innermost node under a chain of MeTTa wrappers, following first named children.
pub open spec fn metta_unwrap(t: &SyntaxTree, n: int) -> int
    decreases t.size() - n,
{
    if 0 <= n < t.size() && metta_wrapper(t.node(n).kind) && t.named_children_of(n).len() > 0
        && n < t.named_children_of(n)[0] < t.size() {
        metta_unwrap(t, t.named_children_of(n)[0] as int)
    } else {
        n
    }
}

/// The name of a MeTTa rule `(= LHS RHS)`: the head of `LHS` when it is a
/// list, else the text of `LHS`; empty when there is no `LHS`.
pub open spec fn metta_rule_name(t: &SyntaxTree, n: int) -> Seq<char> {
    let nc = t.named_children_of(n);
    if nc.len() < 2 {
        Seq::empty()
    } else {
        let lhs = metta_unwrap(t, nc[1] as int);
        if t.node(lhs).kind == "list"@ {
            let lc = t.named_children_of(lhs);
            if lc.len() > 0 { t.text_of(metta_unwrap(t, lc[0] as int)) } else { Seq::empty() }
        } else {
            t.text_of(lhs)
        }
    }
}

/// The module of a MeTTa `(import! space module)`: its last named child.
pub open spec fn metta_import_path(t: &SyntaxTree, n: int) -> Seq<char> {
    let nc = t.named_children_of(n);
    if nc.len() == 0 { Seq::empty() } else { t.text_of(metta_unwrap(t, nc[nc.len() - 1] as int)) }
}

/// A MeTTa rule-definition head.
pub open spec fn metta_rule_head(k: Seq<char>) -> bool {
    k == "assignment_operator"@ || k == "rule_definition_operator"@
}

/// A MeTTa list by its head atom.
pub open spec fn metta_list(t: &SyntaxTree, n: int) -> KindView {
    let nc = t.named_children_of(n);
    if nc.len() == 0 {
        KindView::Literal(LiteralView::Null)
    } else {
        let head = metta_unwrap(t, nc[0] as int);
        let hk = t.node(head).kind;
        if metta_rule_head(hk) {
            KindView::Function(sig(metta_rule_name(t, n), None, false, false, Visibility::Public))
        } else if hk == "type_annotation_operator"@ || hk == "arrow_operator"@ {
            KindView::TypeAnnotation(t.text_of(n))
        } else if hk == "identifier"@ {
            let ht = t.text_of(head);
            if ht == "if"@ { KindView::If }
            else if ht == "case"@ || ht == "match"@ { KindView::Match }
            else if ht == "let"@ || ht == "let*"@ { KindView::Block(global()) }
            else if ht == "import!"@ { KindView::Import(metta_import_path(t, n)) }
            else { KindView::Call(None, false) }
        } else {
            KindView::Call(None, false)
        }
    }
}

/// A MeTTa `$variable` bound on the left of a rule: the variable sits, through
/// two wrappers, in a list that is the second operand of a `=`/`:=` list.
pub open spec fn metta_lhs_binder(t: &SyntaxTree, n: int) -> bool {
    match t.node(n).parent {
        Some(p1) => match t.node(p1 as int).parent {
            Some(p2) => match t.node(p2 as int).parent {
                Some(lhs) => t.node(lhs as int).kind == "list"@ && match t.node(lhs as int).parent {
                    Some(q) => match t.node(q as int).parent {
                        Some(outer) => {
                            let nc = t.named_children_of(outer as int);
                            t.node(outer as int).kind == "list"@ && nc.len() > 0
                                && metta_rule_head(t.node(metta_unwrap(t, nc[0] as int)).kind)
                                && nc.len() > 1 && metta_unwrap(t, nc[1] as int) == lhs as int
                        },
                        None => false,
                    },
                    None => false,
                },
                None => false,
            },
            None => false,
        },
        None => false,
    }
}

/// MeTTa grammar kinds.
pub open spec fn metta_kind(t: &SyntaxTree, n: int, k: Seq<char>) -> KindView {
    if k == "source_file"@ { KindView::Root }
    else if k == "list"@ { metta_list(t, n) }
    else if k == "identifier"@ { ident(t, n) }
    else if k == "variable"@ {
        if metta_lhs_binder(t, n) { KindView::Parameter(t.text_of(n), None, false) } else { ident(t, n) }
    }
    else if k == "wildcard"@ { KindView::Identifier("_"@, None) }
    else if k == "space_reference"@ || k == "special_type_symbol"@ { ident(t, n) }
    else if k == "boolean_literal"@ { KindView::Literal(LiteralView::Bool(t.text_of(n) == "True"@)) }
    else if k == "integer_literal"@ { lit_int(t, n) }
    else if k == "float_literal"@ { lit_float(t, n) }
    else if k == "string_literal"@ { lit_string(t, n) }
    else if k == "operator"@ || k == "arrow_operator"@ || k == "comparison_operator"@ || k == "assignment_operator"@
        || k == "type_annotation_operator"@ || k == "rule_definition_operator"@ || k == "punctuation_operator"@
        || k == "arithmetic_operator"@ || k == "logic_operator"@ || k == "exclaim_prefix"@ || k == "question_prefix"@
        || k == "quote_prefix"@ { unknown(k) }
    else if k == "line_comment"@ { KindView::Comment(false) }
    else if k == "ERROR"@ { error_kind() }
    else { unknown(k) }
}

/// The graph node kind for a grammar node of kind `k` in language `lang`.
pub open spec fn mapped_kind(lang: Language, t: &SyntaxTree, n: int, k: Seq<char>) -> KindView {
    match lang {
        Language::Rust => rust_kind(t, n, k),
        Language::Python => python_kind(t, n, k),
        Language::JavaScript | Language::TypeScript => js_kind(t, n, k),
        Language::Go => go_kind(t, n, k),
        Language::Java => java_kind(t, n, k),
        Language::C | Language::Cpp => c_kind(t, n, k),
        Language::Ruby => ruby_kind(t, n, k),
        Language::Json => json_kind(t, n, k),
        Language::Html => html_kind(t, n, k),
        Language::Css => css_kind(t, n, k),
        Language::Bash => bash_kind(t, n, k),
        Language::Yaml | Language::Toml => config_kind(t, n, k),
        Language::Markdown => markdown_kind(t, n, k),
        Language::Rholang => rholang_kind(t, n, k),
        Language::MeTTa => metta_kind(t, n, k),
        _ => unknown(k),
    }
}

/// Pure punctuation.
pub open spec fn punctuation(k: Seq<char>) -> bool {
    k == "("@ || k == ")"@ || k == "{"@ || k == "}"@ || k == "["@ || k == "]"@ || k == ","@ || k == ";"@
        || k == ":"@ || k == "::"@ || k == "."@ || k == "->"@ || k == "=>"@ || k == "<"@ || k == ">"@
}

/// MeTTa wrappers dropped from the graph (their children move up).
pub open spec fn metta_transparent(k: Seq<char>) -> bool {
    k == "expression"@ || k == "atom_expression"@ || k == "prefixed_expression"@
}

/// Rholang list containers and markers dropped from the graph.
pub open spec fn rholang_transparent(k: Seq<char>) -> bool {
    k == "names"@ || k == "name_decls"@ || k == "receipts"@ || k == "receipt"@ || k == "linear_decls"@
        || k == "conc_decls"@ || k == "agent_decls"@ || k == "agent_decl"@ || k == "inputs"@ || k == "messages"@
        || k == "args"@ || k == "procs"@ || k == "cases"@ || k == "branches"@ || k == "send_single"@
        || k == "send_multiple"@ || k == "var_ref_kind"@
}

/// Whether a grammar node of kind `k` becomes a graph node: not punctuation,
/// not a comment unless comments are kept, not a transparent wrapper of the
/// language.
pub open spec fn included(lang: Language, k: Seq<char>, include_comments: bool) -> bool {
    &&& !punctuation(k)
    &&& (include_comments || !text_has(k, "comment"@))
    &&& !(lang == Language::MeTTa && metta_transparent(k))
    &&& !(lang == Language::Rholang && rholang_transparent(k))
}

/// Whether grammar node `n` becomes a graph node: its kind is included, and in
/// Rholang it is a named node (bare keyword and operator tokens are dropped).
pub open spec fn node_included(lang: Language, t: &SyntaxTree, n: int, include_comments: bool) -> bool {
    included(lang, t.node(n).kind, include_comments) && !(lang == Language::Rholang && !t.node(n).named)
}

/// Maps grammar node kinds of one language to graph node kinds.
pub struct NodeMapper {
    language: Language,
}

impl NodeMapper {
    /// The language this mapper is for.
    pub closed spec fn language_view(&self) -> Language {
        self.language
    }

    /// A mapper for `language`.
    pub fn new(language: Language) -> (r: NodeMapper)
        ensures
            r.language_view() == language,
    {
        NodeMapper { language }
    }

    /// The language this mapper is for.
    pub fn language(&self) -> (r: Language)
        ensures
            r == self.language_view(),
    {
        self.language
    }

    // ----- reading the tree -----

    fn node_text(t: &SyntaxTree, n: usize) -> (r: String)
        requires
            t.wf(),
            t.has_node(n as int),
        ensures
            r@ == t.text_of(n as int),
    {
        t.text(n).to_owned()
    }

    fn child_text(t: &SyntaxTree, n: usize, f: &str) -> (r: String)
        requires
            t.wf(),
            t.has_node(n as int),
        ensures
            r@ == child_text(t, n as int, f@),
    {
        match t.child_by_field_name(n, f) {
            Some(c) => t.text(c).to_owned(),
            None => String::new(),
        }
    }

    fn child_opt_text(t: &SyntaxTree, n: usize, f: &str) -> (r: Option<String>)
        requires
            t.wf(),
            t.has_node(n as int),
        ensures
            crate::graph::opt_view(r) == child_opt_text(t, n as int, f@),
    {
        match t.child_by_field_name(n, f) {
            Some(c) => Some(t.text(c).to_owned()),
            None => None,
        }
    }

    fn child_type(t: &SyntaxTree, n: usize, f: &str) -> (r: Option<TypeInfo>)
        requires
            t.wf(),
            t.has_node(n as int),
        ensures
            type_view(r) == child_opt_text(t, n as int, f@),
    {
        match t.child_by_field_name(n, f) {
            Some(c) => Some(TypeInfo::new(t.text(c).to_owned())),
            None => None,
        }
    }

    fn has_child_kind(t: &SyntaxTree, n: usize, k: &str) -> (r: bool)
        requires
            t.wf(),
            t.has_node(n as int),
        ensures
            r == has_child_kind(t, n as int, k@),
    {
        proof { assert(t.node_ok(n as int)); }
        let cs = t.children(n);
        let mut j: usize = 0;
        while j < cs.len()
            invariant
                t.wf(),
                t.node_ok(n as int),
                cs@ == t.node(n as int).children,
                j <= cs@.len(),
                forall|i: int| 0 <= i < j ==> t.node(cs@[i] as int).kind != k@,
            decreases cs@.len() - j,
        {
            if str_eq(t.kind(cs[j]), k) {
                assert(t.node(t.node(n as int).children[j as int] as int).kind == k@);
                return true;
            }
            j = j + 1;
        }
        false
    }

    fn has_modifier(t: &SyntaxTree, n: usize, m: &str) -> (r: bool)
        requires
            t.wf(),
            t.has_node(n as int),
        ensures
            r == has_modifier(t, n as int, m@),
    {
        proof { assert(t.node_ok(n as int)); }
        let cs = t.children(n);
        let mut j: usize = 0;
        while j < cs.len()
            invariant
                t.wf(),
                t.node_ok(n as int),
                cs@ == t.node(n as int).children,
                j <= cs@.len(),
                forall|a: int, i: int| #![trigger t.node(cs@[a] as int).children[i]]
                    0 <= a < j && t.node(cs@[a] as int).kind == "modifiers"@
                    && 0 <= i < t.node(cs@[a] as int).children.len()
                    ==> t.node(t.node(cs@[a] as int).children[i] as int).kind != m@,
            decreases cs@.len() - j,
        {
            let c = cs[j];
            proof { assert(t.node_ok(c as int)); }
            if str_eq(t.kind(c), "modifiers") {
                let ms = t.children(c);
                let mut i: usize = 0;
                while i < ms.len()
                    invariant
                        t.wf(),
                        t.node_ok(n as int),
                        t.node_ok(c as int),
                        t.has_node(c as int),
                        cs@ == t.node(n as int).children,
                        j < cs@.len(),
                        c == cs@[j as int],
                        t.node(c as int).kind == "modifiers"@,
                        ms@ == t.node(c as int).children,
                        i <= ms@.len(),
                        forall|q: int| 0 <= q < i ==> t.node(ms@[q] as int).kind != m@,
                    decreases ms@.len() - i,
                {
                    if str_eq(t.kind(ms[i]), m) {
                        assert(t.node(t.node(t.node(n as int).children[j as int] as int).children[i as int] as int).kind == m@);
                        return true;
                    }
                    i = i + 1;
                }
            }
            j = j + 1;
        }
        false
    }

    fn kind_test(p: KindTest, k: &str) -> (r: bool)
        ensures
            r == kind_test(p, k@),
    {
        match p {
            KindTest::Operator => Self::op_like(k) || str_eq(k, "operator"),
            KindTest::UseTree => str_eq(k, "use_tree") || str_eq(k, "scoped_identifier"),
            KindTest::MetaItem => str_eq(k, "meta_item") || str_eq(k, "attribute"),
            KindTest::DecoratorHead => str_eq(k, "identifier") || str_eq(k, "attribute"),
            KindTest::UriLiteral => str_eq(k, "uri_literal"),
        }
    }

    fn op_like(k: &str) -> (r: bool)
        ensures
            r == op_like(k@),
    {
        k.as_bytes().len() <= 3 && (
            str_contains(k, "+") || str_contains(k, "-") || str_contains(k, "*") || str_contains(k, "/")
            || str_contains(k, "%") || str_contains(k, "=") || str_contains(k, "<") || str_contains(k, ">")
            || str_contains(k, "&") || str_contains(k, "|") || str_contains(k, "^") || str_contains(k, "!")
            || str_eq(k, "and") || str_eq(k, "or") || str_eq(k, "not"))
    }

    fn first_child_where(t: &SyntaxTree, n: usize, p: KindTest) -> (r: Option<usize>)
        requires
            t.wf(),
            t.has_node(n as int),
        ensures
            r == first_child_where(t, n as int, p),
            r matches Some(c) ==> t.has_node(c as int) && n < c,
    {
        proof { assert(t.node_ok(n as int)); }
        let cs = t.children(n);
        let mut j: usize = 0;
        while j < cs.len()
            invariant
                t.wf(),
                t.node_ok(n as int),
                cs@ == t.node(n as int).children,
                j <= cs@.len(),
                forall|k: int| 0 <= k < j ==> !kind_test(p, t.node(cs@[k] as int).kind),
            decreases cs@.len() - j,
        {
            if Self::kind_test(p, t.kind(cs[j])) {
                proof {
                    assert(is_first_where(t, cs@, p, j as int));
                    let w = choose|w: int| is_first_where(t, cs@, p, w);
                    assert(w == j as int) by {
                        if w < j { assert(!kind_test(p, t.node(cs@[w] as int).kind)); }
                        if w > j { assert(!kind_test(p, t.node(cs@[j as int] as int).kind)); }
                    }
                }
                return Some(cs[j]);
            }
            j = j + 1;
        }
        proof { assert(!exists|w: int| is_first_where(t, cs@, p, w)); }
        None
    }

    fn extract_operator(t: &SyntaxTree, n: usize) -> (r: String)
        requires
            t.wf(),
            t.has_node(n as int),
        ensures
            r@ == operator_of(t, n as int),
    {
        match Self::first_child_where(t, n, KindTest::Operator) {
            Some(c) => {
                let k = t.kind(c);
                if Self::op_like(k) { k.to_owned() } else { t.text(c).to_owned() }
            }
            None => "?".to_owned(),
        }
    }

    fn extract_pattern_name(t: &SyntaxTree, n: usize) -> (r: String)
        requires
            t.wf(),
            t.has_node(n as int),
        ensures
            r@ == pattern_name(t, n as int),
    {
        if let Some(p) = t.child_by_field_name(n, "pattern") {
            if str_eq(t.kind(p), "identifier") {
                return t.text(p).to_owned();
            }
        }
        Self::child_text(t, n, "name")
    }

    fn extract_use_path(t: &SyntaxTree, n: usize) -> (r: String)
        requires
            t.wf(),
            t.has_node(n as int),
        ensures
            r@ == use_path(t, n as int),
    {
        match Self::first_child_where(t, n, KindTest::UseTree) {
            Some(c) => t.text(c).to_owned(),
            None => t.text(n).to_owned(),
        }
    }

    fn extract_attribute_name(t: &SyntaxTree, n: usize) -> (r: String)
        requires
            t.wf(),
            t.has_node(n as int),
        ensures
            r@ == attribute_name(t, n as int),
    {
        match Self::first_child_where(t, n, KindTest::MetaItem) {
            Some(c) => match t.child_by_field_name(c, "path") {
                Some(p) => t.text(p).to_owned(),
                None => t.text(c).to_owned(),
            },
            None => t.text(n).to_owned(),
        }
    }

    fn extract_decorator_name(t: &SyntaxTree, n: usize) -> (r: String)
        requires
            t.wf(),
            t.has_node(n as int),
        ensures
            r@ == decorator_name(t, n as int),
    {
        match Self::first_child_where(t, n, KindTest::DecoratorHead) {
            Some(c) => t.text(c).to_owned(),
            None => t.text(n).to_owned(),
        }
    }

    fn extract_tag_name(t: &SyntaxTree, n: usize) -> (r: String)
        requires
            t.wf(),
            t.has_node(n as int),
        ensures
            r@ == tag_name(t, n as int),
    {
        let mut s = String::from_str("html:");
        if let Some(st) = t.child_by_field_name(n, "start_tag") {
            let cs = t.children(st);
            if cs.len() > 0 {
                proof { assert(t.node_ok(st as int)); }
                s.append(t.text(cs[0]));
                return s;
            }
        }
        s.append(t.text(n));
        s
    }

    fn is_docstring(t: &SyntaxTree, n: usize) -> (r: bool)
        requires
            t.wf(),
            t.has_node(n as int),
        ensures
            r == is_docstring(t, n as int),
    {
        proof { assert(t.node_ok(n as int)); }
        let cs = t.children(n);
        if cs.len() > 0 {
            let text = t.text(cs[0]);
            str_starts_with(text, "\"\"\"") || str_starts_with(text, "'''")
        } else {
            false
        }
    }

    fn radix_prefixed(s: &str, lower: char, upper: char) -> (r: bool)
        ensures
            r == radix_prefixed(s@, lower, upper),
    {
        if s.unicode_len() < 2 {
            return false;
        }
        let c0 = s.get_char(0);
        let c1 = s.get_char(1);
        c0 == '0' && (c1 == lower || c1 == upper)
    }

    fn parse_integer(text: &str) -> (r: LiteralKind)
        ensures
            r@ == LiteralView::Integer(integer_value(text@)),
    {
        let cleaned = remove_underscores(text);
        let c = cleaned.as_str();
        let len = c.unicode_len();
        let v = if Self::radix_prefixed(c, 'x', 'X') {
            parse_radix(c.substring_char(2, len), 16)
        } else if Self::radix_prefixed(c, 'b', 'B') {
            parse_radix(c.substring_char(2, len), 2)
        } else if Self::radix_prefixed(c, 'o', 'O') {
            parse_radix(c.substring_char(2, len), 8)
        } else {
            parse_radix(c, 10)
        };
        LiteralKind::Integer(match v {
            Some(x) => x,
            None => 0,
        })
    }

    fn parse_float(text: &str) -> (r: LiteralKind)
        ensures
            r@ == LiteralView::Float(without_underscores(text@)),
    {
        LiteralKind::Float(remove_underscores(text))
    }

    fn parse_char(text: &str) -> (r: LiteralKind)
        ensures
            r@ == LiteralView::Char(char_value(text@)),
    {
        let s = trim_char(text, '\'');
        if s.unicode_len() > 0 {
            LiteralKind::Char(s.get_char(0))
        } else {
            LiteralKind::Char('\0')
        }
    }

    fn lit_number(t: &SyntaxTree, n: usize) -> (r: CpgNodeKind)
        requires
            t.wf(),
            t.has_node(n as int),
        ensures
            r@ == lit_number(t, n as int),
    {
        let text = t.text(n);
        if str_contains(text, ".") {
            CpgNodeKind::Literal { kind: Self::parse_float(text) }
        } else {
            CpgNodeKind::Literal { kind: Self::parse_integer(text) }
        }
    }

    fn rust_visibility(t: &SyntaxTree, n: usize) -> (r: Visibility)
        requires
            t.wf(),
            t.has_node(n as int),
        ensures
            r == rust_visibility(t, n as int),
    {
        if Self::has_child_kind(t, n, "visibility_modifier") { Visibility::Public } else { Visibility::Private }
    }

    fn rust_signature(t: &SyntaxTree, n: usize) -> (r: MethodSignature)
        requires
            t.wf(),
            t.has_node(n as int),
        ensures
            r@ == rust_signature(t, n as int),
    {
        Self::signature(Self::child_text(t, n, "name"), Self::child_type(t, n, "return_type"), false,
            Self::has_child_kind(t, n, "async"), Self::rust_visibility(t, n))
    }

    fn ident(t: &SyntaxTree, n: usize) -> (r: CpgNodeKind)
        requires
            t.wf(),
            t.has_node(n as int),
        ensures
            r@ == ident(t, n as int),
    {
        CpgNodeKind::Identifier { name: Self::node_text(t, n), definition: None }
    }

    fn lit_string(t: &SyntaxTree, n: usize) -> (r: CpgNodeKind)
        requires
            t.wf(),
            t.has_node(n as int),
        ensures
            r@ == lit_string(t, n as int),
    {
        CpgNodeKind::Literal { kind: LiteralKind::String(Self::node_text(t, n)) }
    }

    fn lit_int(t: &SyntaxTree, n: usize) -> (r: CpgNodeKind)
        requires
            t.wf(),
            t.has_node(n as int),
        ensures
            r@ == lit_int(t, n as int),
    {
        CpgNodeKind::Literal { kind: Self::parse_integer(t.text(n)) }
    }

    fn lit_float(t: &SyntaxTree, n: usize) -> (r: CpgNodeKind)
        requires
            t.wf(),
            t.has_node(n as int),
        ensures
            r@ == lit_float(t, n as int),
    {
        CpgNodeKind::Literal { kind: Self::parse_float(t.text(n)) }
    }

    fn error_kind() -> (r: CpgNodeKind)
        ensures
            r@ == error_kind(),
    {
        CpgNodeKind::Error { message: "Parse error".to_owned() }
    }

    fn unknown(k: &str) -> (r: CpgNodeKind)
        ensures
            r@ == unknown(k@),
    {
        CpgNodeKind::Unknown { kind: k.to_owned() }
    }

    fn block() -> (r: CpgNodeKind)
        ensures
            r@ == KindView::Block(global()),
    {
        CpgNodeKind::Block { scope: ScopeId::global() }
    }

    fn lambda() -> (r: CpgNodeKind)
        ensures
            r@ == KindView::Lambda(Seq::empty()),
    {
        CpgNodeKind::Lambda { captures: Vec::new() }
    }

    #[verifier::rlimit(40)]
    fn map_rust(&self, k: &str, t: &SyntaxTree, n: usize) -> (r: CpgNodeKind)
        requires
            t.wf(),
            t.has_node(n as int),
        ensures
            r@ == rust_kind(t, n as int, k@),
    {
        let is = |x: &str| -> (b: bool) ensures b == (k@ == x@) { str_eq(k, x) };
        if is("source_file") { return CpgNodeKind::Root; }
        if is("mod_item") { return CpgNodeKind::Module { name: Self::child_text(t, n, "name") }; }
        if is("struct_item") { return CpgNodeKind::Struct { name: Self::child_text(t, n, "name") }; }
        if is("enum_item") { return CpgNodeKind::Enum { name: Self::child_text(t, n, "name") }; }
        if is("trait_item") { return CpgNodeKind::Trait { name: Self::child_text(t, n, "name") }; }
        if is("impl_item") {
            return CpgNodeKind::Impl { for_type: Self::child_opt_text(t, n, "type"), trait_name: Self::child_opt_text(t, n, "trait") };
        }
        if is("function_item") || is("function_signature_item") {
            return CpgNodeKind::Function { signature: Self::rust_signature(t, n) };
        }
        if is("closure_expression") { return Self::lambda(); }
        if is("parameter") {
            return CpgNodeKind::Parameter {
                name: Self::extract_pattern_name(t, n), param_type: Self::child_type(t, n, "type"), is_variadic: false,
            };
        }
        if is("block") { return Self::block(); }
        if is("let_declaration") {
            return CpgNodeKind::Variable {
                name: Self::extract_pattern_name(t, n), var_type: Self::child_type(t, n, "type"),
                scope: ScopeId::global(), is_mutable: Self::has_child_kind(t, n, "mutable_specifier"),
            };
        }
        if is("const_item") || is("static_item") {
            return CpgNodeKind::Variable {
                name: Self::child_text(t, n, "name"), var_type: Self::child_type(t, n, "type"),
                scope: ScopeId::global(), is_mutable: is("static_item") && Self::has_child_kind(t, n, "mutable_specifier"),
            };
        }
        if is("field_declaration") {
            return CpgNodeKind::Field {
                name: Self::child_text(t, n, "name"), field_type: Self::child_type(t, n, "type"),
                visibility: Self::rust_visibility(t, n),
            };
        }
        if is("if_expression") { return CpgNodeKind::If; }
        if is("else_clause") { return CpgNodeKind::Else; }
        if is("while_expression") { return CpgNodeKind::While; }
        if is("for_expression") { return CpgNodeKind::For; }
        if is("loop_expression") { return CpgNodeKind::Loop; }
        if is("match_expression") { return CpgNodeKind::Match; }
        if is("match_arm") { return CpgNodeKind::MatchArm; }
        if is("return_expression") { return CpgNodeKind::Return; }
        if is("break_expression") { return CpgNodeKind::Break; }
        if is("continue_expression") { return CpgNodeKind::Continue; }
        if is("try_expression") { return CpgNodeKind::Try; }
        if is("binary_expression") { return CpgNodeKind::BinaryOp { operator: Self::extract_operator(t, n) }; }
        if is("unary_expression") { return CpgNodeKind::UnaryOp { operator: Self::extract_operator(t, n) }; }
        if is("assignment_expression") || is("compound_assignment_expr") {
            return CpgNodeKind::Assignment { operator: Self::extract_operator(t, n) };
        }
        if is("call_expression") { return CpgNodeKind::Call { target: None, is_method: false }; }
        if is("method_call_expression") { return CpgNodeKind::Call { target: None, is_method: true }; }
        if is("field_expression") { return CpgNodeKind::MemberAccess { member: Self::child_text(t, n, "field") }; }
        if is("index_expression") { return CpgNodeKind::IndexAccess; }
        if is("identifier") || is("type_identifier") || is("field_identifier") { return Self::ident(t, n); }
        if is("await_expression") { return CpgNodeKind::Await; }
        if is("integer_literal") { return Self::lit_int(t, n); }
        if is("float_literal") { return Self::lit_float(t, n); }
        if is("string_literal") || is("raw_string_literal") { return Self::lit_string(t, n); }
        if is("char_literal") { return CpgNodeKind::Literal { kind: Self::parse_char(t.text(n)) }; }
        if is("boolean_literal") { return CpgNodeKind::Literal { kind: LiteralKind::Bool(str_eq(t.text(n), "true")) }; }
        if is("array_expression") { return CpgNodeKind::Literal { kind: LiteralKind::Array }; }
        if is("use_declaration") { return CpgNodeKind::Import { path: Self::extract_use_path(t, n) }; }
        if is("attribute_item") || is("inner_attribute_item") {
            return CpgNodeKind::Attribute { name: Self::extract_attribute_name(t, n) };
        }
        if is("macro_invocation") { return CpgNodeKind::Macro { name: Self::child_text(t, n, "macro") }; }
        if is("line_comment") || is("block_comment") {
            let text = t.text(n);
            return CpgNodeKind::Comment { is_doc: str_starts_with(text, "///") || str_starts_with(text, "//!") };
        }
        if is("type_item") {
            return CpgNodeKind::TypeAnnotation { type_info: TypeInfo::new(Self::child_text(t, n, "name")) };
        }
        if is("generic_type") || is("type_parameters") { return CpgNodeKind::GenericParam { name: Self::node_text(t, n) }; }
        if is("ERROR") { return Self::error_kind(); }
        Self::unknown(k)
    }

    fn python_signature(t: &SyntaxTree, n: usize) -> (r: MethodSignature)
        requires
            t.wf(),
            t.has_node(n as int),
        ensures
            r@ == python_signature(t, n as int),
    {
        Self::signature(Self::child_text(t, n, "name"), None, false, Self::has_child_kind(t, n, "async"), Visibility::Public)
    }

    #[verifier::rlimit(40)]
    fn map_python(&self, k: &str, t: &SyntaxTree, n: usize) -> (r: CpgNodeKind)
        requires
            t.wf(),
            t.has_node(n as int),
        ensures
            r@ == python_kind(t, n as int, k@),
    {
        let is = |x: &str| -> (b: bool) ensures b == (k@ == x@) { str_eq(k, x) };
        if is("module") { return CpgNodeKind::Root; }
        if is("class_definition") { return CpgNodeKind::Class { name: Self::child_text(t, n, "name"), is_abstract: false }; }
        if is("function_definition") { return CpgNodeKind::Function { signature: Self::python_signature(t, n) }; }
        if is("lambda") { return Self::lambda(); }
        if is("parameters") || is("default_parameter") || is("typed_parameter") {
            return CpgNodeKind::Parameter { name: Self::child_text(t, n, "name"), param_type: None, is_variadic: false };
        }
        if is("block") { return Self::block(); }
        if is("assignment") { return CpgNodeKind::Assignment { operator: "=".to_owned() }; }
        if is("augmented_assignment") { return CpgNodeKind::Assignment { operator: Self::extract_operator(t, n) }; }
        if is("if_statement") { return CpgNodeKind::If; }
        if is("elif_clause") || is("else_clause") { return CpgNodeKind::Else; }
        if is("while_statement") { return CpgNodeKind::While; }
        if is("for_statement") { return CpgNodeKind::For; }
        if is("match_statement") { return CpgNodeKind::Match; }
        if is("case_clause") { return CpgNodeKind::MatchArm; }
        if is("return_statement") { return CpgNodeKind::Return; }
        if is("break_statement") { return CpgNodeKind::Break; }
        if is("continue_statement") { return CpgNodeKind::Continue; }
        if is("try_statement") { return CpgNodeKind::Try; }
        if is("except_clause") { return CpgNodeKind::Catch; }
        if is("finally_clause") { return CpgNodeKind::Finally; }
        if is("raise_statement") { return CpgNodeKind::Throw; }
        if is("binary_operator") || is("comparison_operator") || is("boolean_operator") {
            return CpgNodeKind::BinaryOp { operator: Self::extract_operator(t, n) };
        }
        if is("unary_operator") || is("not_operator") { return CpgNodeKind::UnaryOp { operator: Self::extract_operator(t, n) }; }
        if is("call") { return CpgNodeKind::Call { target: None, is_method: false }; }
        if is("attribute") { return CpgNodeKind::MemberAccess { member: Self::child_text(t, n, "attribute") }; }
        if is("subscript") { return CpgNodeKind::IndexAccess; }
        if is("identifier") { return Self::ident(t, n); }
        if is("await") { return CpgNodeKind::Await; }
        if is("yield") { return CpgNodeKind::Yield; }
        if is("integer") { return Self::lit_int(t, n); }
        if is("float") { return Self::lit_float(t, n); }
        if is("string") || is("concatenated_string") { return Self::lit_string(t, n); }
        if is("true") || is("false") { return CpgNodeKind::Literal { kind: LiteralKind::Bool(is("true")) }; }
        if is("none") { return CpgNodeKind::Literal { kind: LiteralKind::Null }; }
        if is("list") { return CpgNodeKind::Literal { kind: LiteralKind::Array }; }
        if is("dictionary") { return CpgNodeKind::Literal { kind: LiteralKind::Object }; }
        if is("import_statement") || is("import_from_statement") { return CpgNodeKind::Import { path: Self::node_text(t, n) }; }
        if is("decorator") { return CpgNodeKind::Attribute { name: Self::extract_decorator_name(t, n) }; }
        if is("comment") { return CpgNodeKind::Comment { is_doc: false }; }
        if is("expression_statement") && Self::is_docstring(t, n) { return CpgNodeKind::Comment { is_doc: true }; }
        if is("ERROR") { return Self::error_kind(); }
        Self::unknown(k)
    }

    fn js_signature(t: &SyntaxTree, n: usize) -> (r: MethodSignature)
        requires
            t.wf(),
            t.has_node(n as int),
        ensures
            r@ == js_signature(t, n as int),
    {
        Self::signature(Self::child_text(t, n, "name"), None, Self::has_child_kind(t, n, "static"),
            Self::has_child_kind(t, n, "async"), Visibility::Public)
    }

    #[verifier::rlimit(40)]
    fn map_javascript(&self, k: &str, t: &SyntaxTree, n: usize) -> (r: CpgNodeKind)
        requires
            t.wf(),
            t.has_node(n as int),
        ensures
            r@ == js_kind(t, n as int, k@),
    {
        let is = |x: &str| -> (b: bool) ensures b == (k@ == x@) { str_eq(k, x) };
        if is("program") { return CpgNodeKind::Root; }
        if is("class_declaration") || is("class") {
            return CpgNodeKind::Class { name: Self::child_text(t, n, "name"), is_abstract: false };
        }
        if is("function_declaration") || is("function") || is("generator_function_declaration") {
            return CpgNodeKind::Function { signature: Self::js_signature(t, n) };
        }
        if is("method_definition") { return CpgNodeKind::Function { signature: Self::js_signature(t, n) }; }
        if is("arrow_function") { return Self::lambda(); }
        if is("formal_parameters") || is("required_parameter") || is("optional_parameter") {
            return CpgNodeKind::Parameter { name: Self::child_text(t, n, "pattern"), param_type: None, is_variadic: false };
        }
        if is("statement_block") { return Self::block(); }
        if is("variable_declaration") || is("lexical_declaration") {
            return CpgNodeKind::Variable {
                name: String::new(), var_type: None, scope: ScopeId::global(),
                is_mutable: !str_starts_with(t.text(n), "const"),
            };
        }
        if is("variable_declarator") {
            return CpgNodeKind::Variable { name: Self::child_text(t, n, "name"), var_type: None, scope: ScopeId::global(), is_mutable: true };
        }
        if is("public_field_definition") || is("field_definition") {
            return CpgNodeKind::Field { name: Self::child_text(t, n, "property"), field_type: None, visibility: Visibility::Public };
        }
        if is("if_statement") { return CpgNodeKind::If; }
        if is("else_clause") { return CpgNodeKind::Else; }
        if is("while_statement") { return CpgNodeKind::While; }
        if is("for_statement") || is("for_in_statement") || is("for_of_statement") { return CpgNodeKind::For; }
        if is("do_statement") { return CpgNodeKind::Loop; }
        if is("switch_statement") { return CpgNodeKind::Match; }
        if is("switch_case") || is("switch_default") { return CpgNodeKind::MatchArm; }
        if is("return_statement") { return CpgNodeKind::Return; }
        if is("break_statement") { return CpgNodeKind::Break; }
        if is("continue_statement") { return CpgNodeKind::Continue; }
        if is("try_statement") { return CpgNodeKind::Try; }
        if is("catch_clause") { return CpgNodeKind::Catch; }
        if is("finally_clause") { return CpgNodeKind::Finally; }
        if is("throw_statement") { return CpgNodeKind::Throw; }
        if is("binary_expression") { return CpgNodeKind::BinaryOp { operator: Self::extract_operator(t, n) }; }
        if is("unary_expression") || is("update_expression") { return CpgNodeKind::UnaryOp { operator: Self::extract_operator(t, n) }; }
        if is("assignment_expression") || is("augmented_assignment_expression") {
            return CpgNodeKind::Assignment { operator: Self::extract_operator(t, n) };
        }
        if is("call_expression") || is("new_expression") { return CpgNodeKind::Call { target: None, is_method: false }; }
        if is("member_expression") { return CpgNodeKind::MemberAccess { member: Self::child_text(t, n, "property") }; }
        if is("subscript_expression") { return CpgNodeKind::IndexAccess; }
        if is("identifier") || is("property_identifier") || is("shorthand_property_identifier") { return Self::ident(t, n); }
        if is("await_expression") { return CpgNodeKind::Await; }
        if is("yield_expression") { return CpgNodeKind::Yield; }
        if is("number") { return Self::lit_number(t, n); }
        if is("string") || is("template_string") { return Self::lit_string(t, n); }
        if is("true") || is("false") { return CpgNodeKind::Literal { kind: LiteralKind::Bool(is("true")) }; }
        if is("null") || is("undefined") { return CpgNodeKind::Literal { kind: LiteralKind::Null }; }
        if is("array") { return CpgNodeKind::Literal { kind: LiteralKind::Array }; }
        if is("object") { return CpgNodeKind::Literal { kind: LiteralKind::Object }; }
        if is("regex") { return CpgNodeKind::Literal { kind: LiteralKind::Regex(Self::node_text(t, n)) }; }
        if is("import_statement") || is("import") { return CpgNodeKind::Import { path: Self::node_text(t, n) }; }
        if is("export_statement") { return CpgNodeKind::Import { path: "export".to_owned() }; }
        if is("comment") { return CpgNodeKind::Comment { is_doc: str_starts_with(t.text(n), "/**") }; }
        if is("ERROR") { return Self::error_kind(); }
        Self::unknown(k)
    }

    #[verifier::rlimit(40)]
    fn map_go(&self, k: &str, t: &SyntaxTree, n: usize) -> (r: CpgNodeKind)
        requires
            t.wf(),
            t.has_node(n as int),
        ensures
            r@ == go_kind(t, n as int, k@),
    {
        let is = |x: &str| -> (b: bool) ensures b == (k@ == x@) { str_eq(k, x) };
        if is("source_file") { return CpgNodeKind::Root; }
        if is("package_clause") { return CpgNodeKind::Module { name: Self::child_text(t, n, "name") }; }
        if is("type_declaration") || is("type_spec") { return CpgNodeKind::Struct { name: Self::child_text(t, n, "name") }; }
        if is("interface_type") { return CpgNodeKind::Trait { name: Self::node_text(t, n) }; }
        if is("function_declaration") || is("method_declaration") {
            return CpgNodeKind::Function { signature: Self::named_signature(t, n) };
        }
        if is("func_literal") { return Self::lambda(); }
        if is("parameter_declaration") {
            return CpgNodeKind::Parameter {
                name: Self::node_text(t, n), param_type: None,
                is_variadic: Self::has_child_kind(t, n, "variadic_parameter_declaration"),
            };
        }
        if is("block") { return Self::block(); }
        if is("short_var_declaration") || is("var_declaration") {
            return CpgNodeKind::Variable { name: String::new(), var_type: None, scope: ScopeId::global(), is_mutable: true };
        }
        if is("const_declaration") {
            return CpgNodeKind::Variable { name: String::new(), var_type: None, scope: ScopeId::global(), is_mutable: false };
        }
        if is("if_statement") { return CpgNodeKind::If; }
        if is("for_statement") { return CpgNodeKind::For; }
        if is("switch_statement") || is("type_switch_statement") { return CpgNodeKind::Match; }
        if is("expression_case") || is("type_case") || is("default_case") { return CpgNodeKind::MatchArm; }
        if is("return_statement") { return CpgNodeKind::Return; }
        if is("break_statement") { return CpgNodeKind::Break; }
        if is("continue_statement") { return CpgNodeKind::Continue; }
        if is("go_statement") { return CpgNodeKind::Await; }
        if is("defer_statement") { return CpgNodeKind::Finally; }
        if is("binary_expression") { return CpgNodeKind::BinaryOp { operator: Self::extract_operator(t, n) }; }
        if is("unary_expression") { return CpgNodeKind::UnaryOp { operator: Self::extract_operator(t, n) }; }
        if is("assignment_statement") { return CpgNodeKind::Assignment { operator: Self::extract_operator(t, n) }; }
        if is("call_expression") { return CpgNodeKind::Call { target: None, is_method: false }; }
        if is("selector_expression") { return CpgNodeKind::MemberAccess { member: Self::child_text(t, n, "field") }; }
        if is("index_expression") { return CpgNodeKind::IndexAccess; }
        if is("identifier") || is("field_identifier") || is("package_identifier") || is("type_identifier") {
            return Self::ident(t, n);
        }
        if is("int_literal") { return Self::lit_int(t, n); }
        if is("float_literal") { return Self::lit_float(t, n); }
        if is("interpreted_string_literal") || is("raw_string_literal") { return Self::lit_string(t, n); }
        if is("true") || is("false") { return CpgNodeKind::Literal { kind: LiteralKind::Bool(is("true")) }; }
        if is("nil") { return CpgNodeKind::Literal { kind: LiteralKind::Null }; }
        if is("import_declaration") { return CpgNodeKind::Import { path: Self::node_text(t, n) }; }
        if is("comment") { return CpgNodeKind::Comment { is_doc: str_starts_with(t.text(n), "//") }; }
        if is("ERROR") { return Self::error_kind(); }
        Self::unknown(k)
    }

    fn named_signature(t: &SyntaxTree, n: usize) -> (r: MethodSignature)
        requires
            t.wf(),
            t.has_node(n as int),
        ensures
            r@ == named_signature(t, n as int),
            r@ == go_signature(t, n as int),
    {
        Self::signature(Self::child_text(t, n, "name"), None, false, false, Visibility::Public)
    }

    fn java_visibility(t: &SyntaxTree, n: usize) -> (r: Visibility)
        requires
            t.wf(),
            t.has_node(n as int),
        ensures
            r == java_visibility(t, n as int),
    {
        if Self::has_modifier(t, n, "public") {
            Visibility::Public
        } else if Self::has_modifier(t, n, "protected") {
            Visibility::Protected
        } else if Self::has_modifier(t, n, "private") {
            Visibility::Private
        } else {
            Visibility::Package
        }
    }

    fn java_signature(t: &SyntaxTree, n: usize) -> (r: MethodSignature)
        requires
            t.wf(),
            t.has_node(n as int),
        ensures
            r@ == java_signature(t, n as int),
    {
        Self::signature(Self::child_text(t, n, "name"), Self::child_type(t, n, "type"), Self::has_modifier(t, n, "static"),
            false, Self::java_visibility(t, n))
    }

    #[verifier::rlimit(40)]
    fn map_java(&self, k: &str, t: &SyntaxTree, n: usize) -> (r: CpgNodeKind)
        requires
            t.wf(),
            t.has_node(n as int),
        ensures
            r@ == java_kind(t, n as int, k@),
    {
        let is = |x: &str| -> (b: bool) ensures b == (k@ == x@) { str_eq(k, x) };
        if is("program") { return CpgNodeKind::Root; }
        if is("package_declaration") { return CpgNodeKind::Module { name: Self::node_text(t, n) }; }
        if is("class_declaration") {
            return CpgNodeKind::Class { name: Self::child_text(t, n, "name"), is_abstract: Self::has_modifier(t, n, "abstract") };
        }
        if is("interface_declaration") { return CpgNodeKind::Trait { name: Self::child_text(t, n, "name") }; }
        if is("enum_declaration") { return CpgNodeKind::Enum { name: Self::child_text(t, n, "name") }; }
        if is("method_declaration") || is("constructor_declaration") {
            return CpgNodeKind::Function { signature: Self::java_signature(t, n) };
        }
        if is("lambda_expression") { return Self::lambda(); }
        if is("formal_parameter") || is("spread_parameter") {
            return CpgNodeKind::Parameter {
                name: Self::child_text(t, n, "name"), param_type: None, is_variadic: is("spread_parameter"),
            };
        }
        if is("block") { return Self::block(); }
        if is("local_variable_declaration") || is("variable_declarator") {
            return CpgNodeKind::Variable {
                name: Self::child_text(t, n, "name"), var_type: None, scope: ScopeId::global(),
                is_mutable: !Self::has_modifier(t, n, "final"),
            };
        }
        if is("field_declaration") {
            return CpgNodeKind::Field { name: String::new(), field_type: None, visibility: Self::java_visibility(t, n) };
        }
        if is("if_statement") { return CpgNodeKind::If; }
        if is("while_statement") { return CpgNodeKind::While; }
        if is("for_statement") || is("enhanced_for_statement") { return CpgNodeKind::For; }
        if is("do_statement") { return CpgNodeKind::Loop; }
        if is("switch_expression") { return CpgNodeKind::Match; }
        if is("switch_block_statement_group") || is("switch_rule") { return CpgNodeKind::MatchArm; }
        if is("return_statement") { return CpgNodeKind::Return; }
        if is("break_statement") { return CpgNodeKind::Break; }
        if is("continue_statement") { return CpgNodeKind::Continue; }
        if is("try_statement") || is("try_with_resources_statement") { return CpgNodeKind::Try; }
        if is("catch_clause") { return CpgNodeKind::Catch; }
        if is("finally_clause") { return CpgNodeKind::Finally; }
        if is("throw_statement") { return CpgNodeKind::Throw; }
        if is("binary_expression") { return CpgNodeKind::BinaryOp { operator: Self::extract_operator(t, n) }; }
        if is("unary_expression") || is("update_expression") { return CpgNodeKind::UnaryOp { operator: Self::extract_operator(t, n) }; }
        if is("assignment_expression") { return CpgNodeKind::Assignment { operator: Self::extract_operator(t, n) }; }
        if is("method_invocation") || is("object_creation_expression") { return CpgNodeKind::Call { target: None, is_method: true }; }
        if is("field_access") { return CpgNodeKind::MemberAccess { member: Self::child_text(t, n, "field") }; }
        if is("array_access") { return CpgNodeKind::IndexAccess; }
        if is("identifier") || is("type_identifier") { return Self::ident(t, n); }
        if is("decimal_integer_literal") || is("hex_integer_literal") || is("octal_integer_literal") || is("binary_integer_literal") {
            return Self::lit_int(t, n);
        }
        if is("decimal_floating_point_literal") || is("hex_floating_point_literal") { return Self::lit_float(t, n); }
        if is("string_literal") { return Self::lit_string(t, n); }
        if is("character_literal") { return CpgNodeKind::Literal { kind: Self::parse_char(t.text(n)) }; }
        if is("true") || is("false") { return CpgNodeKind::Literal { kind: LiteralKind::Bool(is("true")) }; }
        if is("null_literal") { return CpgNodeKind::Literal { kind: LiteralKind::Null }; }
        if is("array_initializer") { return CpgNodeKind::Literal { kind: LiteralKind::Array }; }
        if is("import_declaration") { return CpgNodeKind::Import { path: Self::node_text(t, n) }; }
        if is("marker_annotation") || is("annotation") { return CpgNodeKind::Attribute { name: Self::child_text(t, n, "name") }; }
        if is("line_comment") || is("block_comment") { return CpgNodeKind::Comment { is_doc: str_starts_with(t.text(n), "/**") }; }
        if is("ERROR") { return Self::error_kind(); }
        Self::unknown(k)
    }

    fn c_signature(t: &SyntaxTree, n: usize) -> (r: MethodSignature)
        requires
            t.wf(),
            t.has_node(n as int),
        ensures
            r@ == c_signature(t, n as int),
    {
        let name = match t.child_by_field_name(n, "declarator") {
            Some(d) => Self::child_text(t, d, "declarator"),
            None => String::new(),
        };
        Self::signature(name, Self::child_type(t, n, "type"), Self::has_child_kind(t, n, "storage_class_specifier"),
            false, Visibility::Public)
    }

    #[verifier::rlimit(40)]
    fn map_c_cpp(&self, k: &str, t: &SyntaxTree, n: usize) -> (r: CpgNodeKind)
        requires
            t.wf(),
            t.has_node(n as int),
        ensures
            r@ == c_kind(t, n as int, k@),
    {
        let is = |x: &str| -> (b: bool) ensures b == (k@ == x@) { str_eq(k, x) };
        if is("translation_unit") { return CpgNodeKind::Root; }
        if is("namespace_definition") { return CpgNodeKind::Module { name: Self::child_text(t, n, "name") }; }
        if is("class_specifier") { return CpgNodeKind::Class { name: Self::child_text(t, n, "name"), is_abstract: false }; }
        if is("struct_specifier") { return CpgNodeKind::Struct { name: Self::child_text(t, n, "name") }; }
        if is("enum_specifier") { return CpgNodeKind::Enum { name: Self::child_text(t, n, "name") }; }
        if is("function_definition") || is("function_declarator") {
            return CpgNodeKind::Function { signature: Self::c_signature(t, n) };
        }
        if is("lambda_expression") { return Self::lambda(); }
        if is("parameter_declaration") {
            return CpgNodeKind::Parameter { name: Self::node_text(t, n), param_type: None, is_variadic: false };
        }
        if is("compound_statement") { return Self::block(); }
        if is("declaration") || is("init_declarator") {
            return CpgNodeKind::Variable { name: String::new(), var_type: None, scope: ScopeId::global(), is_mutable: true };
        }
        if is("field_declaration") {
            return CpgNodeKind::Field { name: String::new(), field_type: None, visibility: Visibility::Public };
        }
        if is("if_statement") { return CpgNodeKind::If; }
        if is("else_clause") { return CpgNodeKind::Else; }
        if is("while_statement") { return CpgNodeKind::While; }
        if is("for_statement") || is("for_range_loop") { return CpgNodeKind::For; }
        if is("do_statement") { return CpgNodeKind::Loop; }
        if is("switch_statement") { return CpgNodeKind::Match; }
        if is("case_statement") { return CpgNodeKind::MatchArm; }
        if is("return_statement") { return CpgNodeKind::Return; }
        if is("break_statement") { return CpgNodeKind::Break; }
        if is("continue_statement") { return CpgNodeKind::Continue; }
        if is("try_statement") { return CpgNodeKind::Try; }
        if is("catch_clause") { return CpgNodeKind::Catch; }
        if is("throw_statement") { return CpgNodeKind::Throw; }
        if is("binary_expression") { return CpgNodeKind::BinaryOp { operator: Self::extract_operator(t, n) }; }
        if is("unary_expression") || is("update_expression") { return CpgNodeKind::UnaryOp { operator: Self::extract_operator(t, n) }; }
        if is("assignment_expression") { return CpgNodeKind::Assignment { operator: Self::extract_operator(t, n) }; }
        if is("call_expression") { return CpgNodeKind::Call { target: None, is_method: false }; }
        if is("field_expression") { return CpgNodeKind::MemberAccess { member: Self::child_text(t, n, "field") }; }
        if is("subscript_expression") { return CpgNodeKind::IndexAccess; }
        if is("identifier") || is("field_identifier") || is("type_identifier") || is("namespace_identifier") {
            return Self::ident(t, n);
        }
        if is("number_literal") { return Self::lit_number(t, n); }
        if is("string_literal") || is("raw_string_literal") { return Self::lit_string(t, n); }
        if is("char_literal") { return CpgNodeKind::Literal { kind: Self::parse_char(t.text(n)) }; }
        if is("true") || is("false") { return CpgNodeKind::Literal { kind: LiteralKind::Bool(is("true")) }; }
        if is("null") || is("nullptr") { return CpgNodeKind::Literal { kind: LiteralKind::Null }; }
        if is("initializer_list") { return CpgNodeKind::Literal { kind: LiteralKind::Array }; }
        if is("preproc_include") { return CpgNodeKind::Import { path: Self::node_text(t, n) }; }
        if is("comment") {
            let text = t.text(n);
            return CpgNodeKind::Comment { is_doc: str_starts_with(text, "/**") || str_starts_with(text, "///") };
        }
        if is("ERROR") { return Self::error_kind(); }
        Self::unknown(k)
    }

    #[verifier::rlimit(40)]
    fn map_ruby(&self, k: &str, t: &SyntaxTree, n: usize) -> (r: CpgNodeKind)
        requires
            t.wf(),
            t.has_node(n as int),
        ensures
            r@ == ruby_kind(t, n as int, k@),
    {
        let is = |x: &str| -> (b: bool) ensures b == (k@ == x@) { str_eq(k, x) };
        if is("program") { return CpgNodeKind::Root; }
        if is("module") { return CpgNodeKind::Module { name: Self::child_text(t, n, "name") }; }
        if is("class") { return CpgNodeKind::Class { name: Self::child_text(t, n, "name"), is_abstract: false }; }
        if is("method") || is("singleton_method") { return CpgNodeKind::Function { signature: Self::named_signature(t, n) }; }
        if is("lambda") || is("block") || is("do_block") { return Self::lambda(); }
        if is("method_parameters") || is("block_parameters") {
            return CpgNodeKind::Parameter { name: Self::node_text(t, n), param_type: None, is_variadic: false };
        }
        if is("body_statement") { return Self::block(); }
        if is("assignment") { return CpgNodeKind::Assignment { operator: "=".to_owned() }; }
        if is("if") || is("unless") { return CpgNodeKind::If; }
        if is("elsif") || is("else") { return CpgNodeKind::Else; }
        if is("while") || is("until") { return CpgNodeKind::While; }
        if is("for") { return CpgNodeKind::For; }
        if is("case") { return CpgNodeKind::Match; }
        if is("when") { return CpgNodeKind::MatchArm; }
        if is("return") { return CpgNodeKind::Return; }
        if is("break") { return CpgNodeKind::Break; }
        if is("next") { return CpgNodeKind::Continue; }
        if is("begin") { return CpgNodeKind::Try; }
        if is("rescue") { return CpgNodeKind::Catch; }
        if is("ensure") { return CpgNodeKind::Finally; }
        if is("raise") { return CpgNodeKind::Throw; }
        if is("yield") { return CpgNodeKind::Yield; }
        if is("binary") { return CpgNodeKind::BinaryOp { operator: Self::extract_operator(t, n) }; }
        if is("unary") { return CpgNodeKind::UnaryOp { operator: Self::extract_operator(t, n) }; }
        if is("call") || is("method_call") { return CpgNodeKind::Call { target: None, is_method: true }; }
        if is("element_reference") { return CpgNodeKind::IndexAccess; }
        if is("identifier") || is("constant") || is("instance_variable") || is("class_variable") || is("global_variable") {
            return Self::ident(t, n);
        }
        if is("integer") { return Self::lit_int(t, n); }
        if is("float") { return Self::lit_float(t, n); }
        if is("string") || is("symbol") { return Self::lit_string(t, n); }
        if is("true") || is("false") { return CpgNodeKind::Literal { kind: LiteralKind::Bool(is("true")) }; }
        if is("nil") { return CpgNodeKind::Literal { kind: LiteralKind::Null }; }
        if is("array") { return CpgNodeKind::Literal { kind: LiteralKind::Array }; }
        if is("hash") { return CpgNodeKind::Literal { kind: LiteralKind::Object }; }
        if is("regex") { return CpgNodeKind::Literal { kind: LiteralKind::Regex(Self::node_text(t, n)) }; }
        if is("comment") { return CpgNodeKind::Comment { is_doc: false }; }
        if is("ERROR") { return Self::error_kind(); }
        Self::unknown(k)
    }

    fn map_json(&self, k: &str, t: &SyntaxTree, n: usize) -> (r: CpgNodeKind)
        requires
            t.wf(),
            t.has_node(n as int),
        ensures
            r@ == json_kind(t, n as int, k@),
    {
        let is = |x: &str| -> (b: bool) ensures b == (k@ == x@) { str_eq(k, x) };
        if is("document") { return CpgNodeKind::Root; }
        if is("object") { return CpgNodeKind::Literal { kind: LiteralKind::Object }; }
        if is("array") { return CpgNodeKind::Literal { kind: LiteralKind::Array }; }
        if is("pair") { return CpgNodeKind::Field { name: String::new(), field_type: None, visibility: Visibility::Public }; }
        if is("string") { return Self::lit_string(t, n); }
        if is("number") { return Self::lit_number(t, n); }
        if is("true") || is("false") { return CpgNodeKind::Literal { kind: LiteralKind::Bool(is("true")) }; }
        if is("null") { return CpgNodeKind::Literal { kind: LiteralKind::Null }; }
        if is("ERROR") { return Self::error_kind(); }
        Self::unknown(k)
    }

    fn map_html(&self, k: &str, t: &SyntaxTree, n: usize) -> (r: CpgNodeKind)
        requires
            t.wf(),
            t.has_node(n as int),
        ensures
            r@ == html_kind(t, n as int, k@),
    {
        let is = |x: &str| -> (b: bool) ensures b == (k@ == x@) { str_eq(k, x) };
        if is("document") || is("fragment") { return CpgNodeKind::Root; }
        if is("element") || is("self_closing_tag") { return CpgNodeKind::Unknown { kind: Self::extract_tag_name(t, n) }; }
        if is("attribute") { return CpgNodeKind::Attribute { name: Self::child_text(t, n, "name") }; }
        if is("text") { return Self::lit_string(t, n); }
        if is("comment") { return CpgNodeKind::Comment { is_doc: false }; }
        if is("ERROR") { return Self::error_kind(); }
        Self::unknown(k)
    }

    fn map_css(&self, k: &str, t: &SyntaxTree, n: usize) -> (r: CpgNodeKind)
        requires
            t.wf(),
            t.has_node(n as int),
        ensures
            r@ == css_kind(t, n as int, k@),
    {
        let is = |x: &str| -> (b: bool) ensures b == (k@ == x@) { str_eq(k, x) };
        if is("stylesheet") { return CpgNodeKind::Root; }
        if is("rule_set") { return Self::block(); }
        if is("declaration") {
            return CpgNodeKind::Variable { name: String::new(), var_type: None, scope: ScopeId::global(), is_mutable: true };
        }
        if is("property_name") || is("class_name") || is("id_name") || is("tag_name") { return Self::ident(t, n); }
        if is("integer_value") || is("float_value") { return Self::lit_float(t, n); }
        if is("string_value") { return Self::lit_string(t, n); }
        if is("color_value") { return Self::lit_string(t, n); }
        if is("import_statement") { return CpgNodeKind::Import { path: Self::node_text(t, n) }; }
        if is("comment") { return CpgNodeKind::Comment { is_doc: false }; }
        if is("ERROR") { return Self::error_kind(); }
        Self::unknown(k)
    }

    fn map_bash(&self, k: &str, t: &SyntaxTree, n: usize) -> (r: CpgNodeKind)
        requires
            t.wf(),
            t.has_node(n as int),
        ensures
            r@ == bash_kind(t, n as int, k@),
    {
        let is = |x: &str| -> (b: bool) ensures b == (k@ == x@) { str_eq(k, x) };
        if is("program") { return CpgNodeKind::Root; }
        if is("function_definition") { return CpgNodeKind::Function { signature: Self::named_signature(t, n) }; }
        if is("compound_statement") { return Self::block(); }
        if is("variable_assignment") {
            return CpgNodeKind::Variable { name: String::new(), var_type: None, scope: ScopeId::global(), is_mutable: true };
        }
        if is("if_statement") { return CpgNodeKind::If; }
        if is("elif_clause") || is("else_clause") { return CpgNodeKind::Else; }
        if is("while_statement") || is("until_statement") { return CpgNodeKind::While; }
        if is("for_statement") || is("c_style_for_statement") { return CpgNodeKind::For; }
        if is("case_statement") { return CpgNodeKind::Match; }
        if is("case_item") { return CpgNodeKind::MatchArm; }
        if is("command") { return CpgNodeKind::Call { target: None, is_method: false }; }
        if is("command_name") || is("variable_name") || is("word") { return Self::ident(t, n); }
        if is("raw_string") || is("string") || is("concatenation") { return Self::lit_string(t, n); }
        if is("number") { return Self::lit_int(t, n); }
        if is("comment") { return CpgNodeKind::Comment { is_doc: false }; }
        if is("ERROR") { return Self::error_kind(); }
        Self::unknown(k)
    }

    fn map_config(&self, k: &str, t: &SyntaxTree, n: usize) -> (r: CpgNodeKind)
        requires
            t.wf(),
            t.has_node(n as int),
        ensures
            r@ == config_kind(t, n as int, k@),
    {
        let is = |x: &str| -> (b: bool) ensures b == (k@ == x@) { str_eq(k, x) };
        if is("document") || is("stream") { return CpgNodeKind::Root; }
        if is("block_mapping") || is("flow_mapping") || is("table") || is("inline_table") {
            return CpgNodeKind::Literal { kind: LiteralKind::Object };
        }
        if is("block_sequence") || is("flow_sequence") || is("array") { return CpgNodeKind::Literal { kind: LiteralKind::Array }; }
        if is("block_mapping_pair") || is("pair") {
            return CpgNodeKind::Field { name: String::new(), field_type: None, visibility: Visibility::Public };
        }
        if is("string_scalar") || is("single_quote_scalar") || is("double_quote_scalar") || is("string")
            || is("basic_string") || is("literal_string") {
            return Self::lit_string(t, n);
        }
        if is("integer_scalar") || is("integer") { return Self::lit_int(t, n); }
        if is("float_scalar") || is("float") { return Self::lit_float(t, n); }
        if is("boolean_scalar") || is("boolean") {
            let lower = to_lower(t.text(n));
            let yes = str_eq(lower.as_str(), "true") || str_eq(lower.as_str(), "yes");
            return CpgNodeKind::Literal { kind: LiteralKind::Bool(yes) };
        }
        if is("null_scalar") { return CpgNodeKind::Literal { kind: LiteralKind::Null }; }
        if is("comment") { return CpgNodeKind::Comment { is_doc: false }; }
        if is("ERROR") { return Self::error_kind(); }
        Self::unknown(k)
    }

    fn map_markdown(&self, k: &str, t: &SyntaxTree, n: usize) -> (r: CpgNodeKind)
        requires
            t.wf(),
            t.has_node(n as int),
        ensures
            r@ == markdown_kind(t, n as int, k@),
    {
        let is = |x: &str| -> (b: bool) ensures b == (k@ == x@) { str_eq(k, x) };
        if is("document") { return CpgNodeKind::Root; }
        if is("section") || is("paragraph") || is("heading") { return Self::block(); }
        if is("code_span") || is("fenced_code_block") || is("indented_code_block") { return Self::lit_string(t, n); }
        if is("link") || is("image") { return CpgNodeKind::Import { path: Self::node_text(t, n) }; }
        if is("html_block") { return CpgNodeKind::Comment { is_doc: false }; }
        if is("ERROR") { return Self::error_kind(); }
        Self::unknown(k)
    }

    fn rholang_glyph(k: &str) -> (r: &'static str)
        ensures
            r@ == rholang_glyph(k@),
    {
        let is = |x: &str| -> (b: bool) ensures b == (k@ == x@) { str_eq(k, x) };
        if is("add") { "+" }
        else if is("sub") || is("neg") { "-" }
        else if is("mult") { "*" }
        else if is("div") { "/" }
        else if is("mod") { "%" }
        else if is("concat") { "++" }
        else if is("diff") { "--" }
        else if is("interpolation") { "%%" }
        else if is("eq") { "==" }
        else if is("neq") { "!=" }
        else if is("lt") { "<" }
        else if is("lte") { "<=" }
        else if is("gt") { ">" }
        else if is("gte") { ">=" }
        else if is("and") { "and" }
        else if is("or") { "or" }
        else if is("matches") { "matches" }
        else if is("disjunction") { "\\/" }
        else if is("conjunction") { "/\\" }
        else if is("not") { "not" }
        else if is("negation") { "~" }
        else { "?" }
    }

    fn rholang_signature(t: &SyntaxTree, n: usize, default_name: &str) -> (r: MethodSignature)
        requires
            t.wf(),
            t.has_node(n as int),
        ensures
            r@ == rholang_signature(t, n as int, default_name@),
    {
        let name = match t.child_by_field_name(n, "name") {
            Some(c) => t.text(c).to_owned(),
            None => default_name.to_owned(),
        };
        Self::signature(name, None, false, false, Visibility::Public)
    }

    fn rholang_uri_child(t: &SyntaxTree, n: usize) -> (r: Option<String>)
        requires
            t.wf(),
            t.has_node(n as int),
        ensures
            crate::graph::opt_view(r) == rholang_uri(t, n as int),
    {
        match Self::first_child_where(t, n, KindTest::UriLiteral) {
            Some(c) => Some(trim_char(t.text(c), '`').to_owned()),
            None => None,
        }
    }

    fn numeric_char(s: &str, i: usize, float: bool) -> (r: bool)
        requires
            i < s@.len(),
        ensures
            r == numeric_char(s@, i as int, float),
    {
        let c = s.get_char(i);
        ('0' <= c && c <= '9') || (float && (c == '.' || c == 'e' || c == 'E' || c == '+')) || (i == 0 && c == '-')
    }

    fn run_end(s: &str, float: bool) -> (r: usize)
        ensures
            r == run_end(s@, 0, float),
            r <= s@.len(),
    {
        let len = s.unicode_len();
        let mut i: usize = 0;
        while i < len
            invariant
                len == s@.len(),
                i <= len,
                run_end(s@, 0, float) == run_end(s@, i as int, float),
            decreases len - i,
        {
            if !Self::numeric_char(s, i, float) {
                return i;
            }
            i = i + 1;
        }
        i
    }

    fn rholang_int_literal(text: &str) -> (r: LiteralKind)
        ensures
            r@ == LiteralView::Integer(rholang_int(text@)),
    {
        let e = Self::run_end(text, false);
        let v = parse_radix(text.substring_char(0, e), 10);
        LiteralKind::Integer(match v {
            Some(x) => x,
            None => 0,
        })
    }

    fn rholang_float_literal(text: &str) -> (r: LiteralKind)
        ensures
            r@ == LiteralView::Float(rholang_float(text@)),
    {
        let e = Self::run_end(text, true);
        LiteralKind::Float(text.substring_char(0, e).to_owned())
    }

    fn rholang_binder(k: &str) -> (r: bool)
        ensures
            r == rholang_binder(k@),
    {
        str_eq(k, "contract") || str_eq(k, "constructor_decl") || str_eq(k, "method_decl") || str_eq(k, "default_decl")
            || str_eq(k, "linear_bind") || str_eq(k, "repeated_bind") || str_eq(k, "peek_bind") || str_eq(k, "decl")
    }

    fn classify_rholang_var(t: &SyntaxTree, n: usize) -> (r: CpgNodeKind)
        requires
            t.wf(),
            t.has_node(n as int),
        ensures
            r@ == rholang_var(t, n as int),
    {
        proof { assert(t.node_ok(n as int)); }
        let name = Self::node_text(t, n);
        let p = match t.parent(n) {
            None => return CpgNodeKind::Identifier { name, definition: None },
            Some(p) => p,
        };
        proof { assert(t.node_ok(p as int)); }
        let pk = t.kind(p);
        if str_eq(pk, "name_decl") {
            return CpgNodeKind::Variable { name, var_type: None, scope: ScopeId::global(), is_mutable: false };
        }
        if str_eq(pk, "let_var_decl") {
            let nc = t.named_children(p);
            if nc.len() > 0 && nc[0] == n {
                return CpgNodeKind::Variable { name, var_type: None, scope: ScopeId::global(), is_mutable: false };
            }
        }
        let container = if str_eq(pk, "quote") { t.parent(p) } else { Some(p) };
        if let Some(c) = container {
            proof { assert(t.node_ok(c as int)); }
            if str_eq(t.kind(c), "names") {
                if let Some(gp) = t.parent(c) {
                    if Self::rholang_binder(t.kind(gp)) {
                        return CpgNodeKind::Parameter { name, param_type: None, is_variadic: false };
                    }
                }
            }
        }
        CpgNodeKind::Identifier { name, definition: None }
    }

    #[verifier::rlimit(60)]
    fn map_rholang(&self, k: &str, t: &SyntaxTree, n: usize) -> (r: CpgNodeKind)
        requires
            t.wf(),
            t.has_node(n as int),
        ensures
            r@ == rholang_kind(t, n as int, k@),
    {
        let is = |x: &str| -> (b: bool) ensures b == (k@ == x@) { str_eq(k, x) };
        if is("source_file") { return CpgNodeKind::Root; }
        if is("contract") { return CpgNodeKind::Function { signature: Self::rholang_signature(t, n, "contract") }; }
        if is("constructor_decl") { return CpgNodeKind::Function { signature: Self::rholang_signature(t, n, "constructor") }; }
        if is("method_decl") { return CpgNodeKind::Function { signature: Self::rholang_signature(t, n, "method") }; }
        if is("default_decl") { return CpgNodeKind::Function { signature: Self::rholang_signature(t, n, "default") }; }
        if is("agent_block") { return CpgNodeKind::Class { name: Self::child_text(t, n, "name"), is_abstract: false }; }
        if is("new") || is("let") || is("input") || is("block") || is("par") || is("bundle") || is("sync_send_cont")
            || is("non_empty_cont") || is("empty_cont") {
            return Self::block();
        }
        if is("ifElse") { return CpgNodeKind::If; }
        if is("match") || is("choice") { return CpgNodeKind::Match; }
        if is("case") || is("branch") { return CpgNodeKind::MatchArm; }
        if is("send") || is("send_sync") { return CpgNodeKind::Call { target: None, is_method: false }; }
        if is("send_method") || is("method") || is("send_method_source") { return CpgNodeKind::Call { target: None, is_method: true }; }
        if is("linear_bind") || is("repeated_bind") || is("peek_bind") || is("receive_send_source") || is("send_receive_source") {
            return CpgNodeKind::Call { target: None, is_method: false };
        }
        if is("simple_source") { return Self::ident(t, n); }
        if is("name_decl") {
            return match Self::rholang_uri_child(t, n) {
                Some(uri) => CpgNodeKind::Import { path: uri },
                None => Self::block(),
            };
        }
        if is("let_var_decl") || is("decl") { return Self::block(); }
        if is("var") { return Self::classify_rholang_var(t, n); }
        if is("wildcard") { return CpgNodeKind::Identifier { name: "_".to_owned(), definition: None }; }
        if is("var_ref") { return Self::ident(t, n); }
        if is("eval") { return CpgNodeKind::UnaryOp { operator: "*".to_owned() }; }
        if is("quote") { return CpgNodeKind::UnaryOp { operator: "@".to_owned() }; }
        if is("add") || is("sub") || is("mult") || is("div") || is("mod") || is("concat") || is("diff")
            || is("interpolation") || is("eq") || is("neq") || is("lt") || is("lte") || is("gt") || is("gte")
            || is("and") || is("or") || is("matches") || is("disjunction") || is("conjunction") {
            return CpgNodeKind::BinaryOp { operator: Self::rholang_glyph(k).to_owned() };
        }
        if is("not") || is("neg") || is("negation") { return CpgNodeKind::UnaryOp { operator: Self::rholang_glyph(k).to_owned() }; }
        if is("simple_type") { return CpgNodeKind::TypeAnnotation { type_info: TypeInfo::new(Self::node_text(t, n)) }; }
        if is("bool_literal") { return CpgNodeKind::Literal { kind: LiteralKind::Bool(str_eq(t.text(n), "true")) }; }
        if is("signed_int_literal") || is("unsigned_int_literal") || is("bigint_literal") || is("long_literal") {
            return CpgNodeKind::Literal { kind: Self::rholang_int_literal(t.text(n)) };
        }
        if is("bigrat_literal") || is("float_literal") || is("fixed_point_literal") {
            return CpgNodeKind::Literal { kind: Self::rholang_float_literal(t.text(n)) };
        }
        if is("string_literal") { return Self::lit_string(t, n); }
        if is("uri_literal") { return Self::lit_string(t, n); }
        if is("nil") || is("unit") { return CpgNodeKind::Literal { kind: LiteralKind::Null }; }
        if is("list") || is("set") || is("tuple") || is("collection") { return CpgNodeKind::Literal { kind: LiteralKind::Array }; }
        if is("map") || is("pathmap") { return CpgNodeKind::Literal { kind: LiteralKind::Object }; }
        if is("key_value_pair") {
            return CpgNodeKind::Field { name: String::new(), field_type: None, visibility: Visibility::Public };
        }
        if is("bundle_read") || is("bundle_write") || is("bundle_equiv") || is("bundle_read_write") {
            return CpgNodeKind::Attribute { name: k.to_owned() };
        }
        if is("line_comment") || is("block_comment") { return CpgNodeKind::Comment { is_doc: false }; }
        if is("ERROR") { return Self::error_kind(); }
        Self::unknown(k)
    }

    fn metta_wrapper(k: &str) -> (r: bool)
        ensures
            r == metta_wrapper(k@),
    {
        str_eq(k, "expression") || str_eq(k, "atom_expression") || str_eq(k, "operator")
    }

    fn metta_unwrap(t: &SyntaxTree, n: usize) -> (r: usize)
        requires
            t.wf(),
            t.has_node(n as int),
        ensures
            r as int == metta_unwrap(t, n as int),
            t.has_node(r as int),
    {
        let mut cur = n;
        loop
            invariant
                t.wf(),
                t.has_node(cur as int),
                metta_unwrap(t, n as int) == metta_unwrap(t, cur as int),
            decreases t.size() - cur,
        {
            if Self::metta_wrapper(t.kind(cur)) {
                let nc = t.named_children(cur);
                if nc.len() > 0 {
                    cur = nc[0];
                    continue;
                }
            }
            return cur;
        }
    }

    fn metta_rule_head(k: &str) -> (r: bool)
        ensures
            r == metta_rule_head(k@),
    {
        str_eq(k, "assignment_operator") || str_eq(k, "rule_definition_operator")
    }

    fn metta_rule_name(t: &SyntaxTree, n: usize) -> (r: String)
        requires
            t.wf(),
            t.has_node(n as int),
        ensures
            r@ == metta_rule_name(t, n as int),
    {
        let nc = t.named_children(n);
        if nc.len() < 2 {
            return String::new();
        }
        let lhs = Self::metta_unwrap(t, nc[1]);
        if str_eq(t.kind(lhs), "list") {
            let lc = t.named_children(lhs);
            if lc.len() > 0 {
                Self::node_text(t, Self::metta_unwrap(t, lc[0]))
            } else {
                String::new()
            }
        } else {
            Self::node_text(t, lhs)
        }
    }

    fn metta_import_path(t: &SyntaxTree, n: usize) -> (r: String)
        requires
            t.wf(),
            t.has_node(n as int),
        ensures
            r@ == metta_import_path(t, n as int),
    {
        let nc = t.named_children(n);
        if nc.len() == 0 {
            return String::new();
        }
        Self::node_text(t, Self::metta_unwrap(t, nc[nc.len() - 1]))
    }

    fn map_metta_list(t: &SyntaxTree, n: usize) -> (r: CpgNodeKind)
        requires
            t.wf(),
            t.has_node(n as int),
        ensures
            r@ == metta_list(t, n as int),
    {
        let nc = t.named_children(n);
        if nc.len() == 0 {
            return CpgNodeKind::Literal { kind: LiteralKind::Null };
        }
        let head = Self::metta_unwrap(t, nc[0]);
        let hk = t.kind(head);
        if Self::metta_rule_head(hk) {
            return CpgNodeKind::Function {
                signature: Self::signature(Self::metta_rule_name(t, n), None, false, false, Visibility::Public),
            };
        }
        if str_eq(hk, "type_annotation_operator") || str_eq(hk, "arrow_operator") {
            return CpgNodeKind::TypeAnnotation { type_info: TypeInfo::new(Self::node_text(t, n)) };
        }
        if str_eq(hk, "identifier") {
            let ht = t.text(head);
            if str_eq(ht, "if") {
                return CpgNodeKind::If;
            } else if str_eq(ht, "case") || str_eq(ht, "match") {
                return CpgNodeKind::Match;
            } else if str_eq(ht, "let") || str_eq(ht, "let*") {
                return Self::block();
            } else if str_eq(ht, "import!") {
                return CpgNodeKind::Import { path: Self::metta_import_path(t, n) };
            } else {
                return CpgNodeKind::Call { target: None, is_method: false };
            }
        }
        CpgNodeKind::Call { target: None, is_method: false }
    }

    fn metta_lhs_binder(t: &SyntaxTree, n: usize) -> (r: bool)
        requires
            t.wf(),
            t.has_node(n as int),
        ensures
            r == metta_lhs_binder(t, n as int),
    {
        proof { assert(t.node_ok(n as int)); }
        let p1 = match t.parent(n) { Some(p) => p, None => return false };
        proof { assert(t.node_ok(p1 as int)); }
        let p2 = match t.parent(p1) { Some(p) => p, None => return false };
        proof { assert(t.node_ok(p2 as int)); }
        let lhs = match t.parent(p2) { Some(p) => p, None => return false };
        proof { assert(t.node_ok(lhs as int)); }
        if !str_eq(t.kind(lhs), "list") {
            return false;
        }
        let q = match t.parent(lhs) { Some(p) => p, None => return false };
        proof { assert(t.node_ok(q as int)); }
        let outer = match t.parent(q) { Some(p) => p, None => return false };
        let nc = t.named_children(outer);
        str_eq(t.kind(outer), "list") && nc.len() > 0 && Self::metta_rule_head(t.kind(Self::metta_unwrap(t, nc[0])))
            && nc.len() > 1 && Self::metta_unwrap(t, nc[1]) == lhs
    }

    #[verifier::rlimit(40)]
    fn map_metta(&self, k: &str, t: &SyntaxTree, n: usize) -> (r: CpgNodeKind)
        requires
            t.wf(),
            t.has_node(n as int),
        ensures
            r@ == metta_kind(t, n as int, k@),
    {
        let is = |x: &str| -> (b: bool) ensures b == (k@ == x@) { str_eq(k, x) };
        if is("source_file") { return CpgNodeKind::Root; }
        if is("list") { return Self::map_metta_list(t, n); }
        if is("identifier") { return Self::ident(t, n); }
        if is("variable") {
            if Self::metta_lhs_binder(t, n) {
                return CpgNodeKind::Parameter { name: Self::node_text(t, n), param_type: None, is_variadic: false };
            }
            return Self::ident(t, n);
        }
        if is("wildcard") { return CpgNodeKind::Identifier { name: "_".to_owned(), definition: None }; }
        if is("space_reference") || is("special_type_symbol") { return Self::ident(t, n); }
        if is("boolean_literal") { return CpgNodeKind::Literal { kind: LiteralKind::Bool(str_eq(t.text(n), "True")) }; }
        if is("integer_literal") { return Self::lit_int(t, n); }
        if is("float_literal") { return Self::lit_float(t, n); }
        if is("string_literal") { return Self::lit_string(t, n); }
        if is("operator") || is("arrow_operator") || is("comparison_operator") || is("assignment_operator")
            || is("type_annotation_operator") || is("rule_definition_operator") || is("punctuation_operator")
            || is("arithmetic_operator") || is("logic_operator") || is("exclaim_prefix") || is("question_prefix")
            || is("quote_prefix") {
            return Self::unknown(k);
        }
        if is("line_comment") { return CpgNodeKind::Comment { is_doc: false }; }
        if is("ERROR") { return Self::error_kind(); }
        Self::unknown(k)
    }

    /// The graph node kind for grammar node `node` of kind `ts_kind`.
    pub fn map_kind(&self, ts_kind: &str, tree: &SyntaxTree, node: usize) -> (r: CpgNodeKind)
        requires
            tree.wf(),
            tree.has_node(node as int),
        ensures
            r@ == mapped_kind(self.language_view(), tree, node as int, ts_kind@),
    {
        match self.language {
            Language::Rust => self.map_rust(ts_kind, tree, node),
            Language::Python => self.map_python(ts_kind, tree, node),
            Language::JavaScript | Language::TypeScript => self.map_javascript(ts_kind, tree, node),
            Language::Go => self.map_go(ts_kind, tree, node),
            Language::Java => self.map_java(ts_kind, tree, node),
            Language::C | Language::Cpp => self.map_c_cpp(ts_kind, tree, node),
            Language::Ruby => self.map_ruby(ts_kind, tree, node),
            Language::Json => self.map_json(ts_kind, tree, node),
            Language::Html => self.map_html(ts_kind, tree, node),
            Language::Css => self.map_css(ts_kind, tree, node),
            Language::Bash => self.map_bash(ts_kind, tree, node),
            Language::Yaml | Language::Toml => self.map_config(ts_kind, tree, node),
            Language::Markdown => self.map_markdown(ts_kind, tree, node),
            Language::Rholang => self.map_rholang(ts_kind, tree, node),
            Language::MeTTa => self.map_metta(ts_kind, tree, node),
            _ => Self::unknown(ts_kind),
        }
    }

    /// Whether a grammar node of kind `ts_kind` becomes a graph node:
    /// punctuation never does, comments only when `include_comments`, and the
    /// transparent wrappers of MeTTa and Rholang never do.
    pub fn should_include(&self, ts_kind: &str, include_comments: bool) -> (r: bool)
        ensures
            r == included(self.language_view(), ts_kind@, include_comments),
    {
        let is = |x: &str| -> (b: bool) ensures b == (ts_kind@ == x@) { str_eq(ts_kind, x) };
        if is("(") || is(")") || is("{") || is("}") || is("[") || is("]") || is(",") || is(";") || is(":")
            || is("::") || is(".") || is("->") || is("=>") || is("<") || is(">") {
            return false;
        }
        if !include_comments && str_contains(ts_kind, "comment") {
            return false;
        }
        match self.language {
            Language::MeTTa => !(is("expression") || is("atom_expression") || is("prefixed_expression")),
            Language::Rholang => !(is("names") || is("name_decls") || is("receipts") || is("receipt")
                || is("linear_decls") || is("conc_decls") || is("agent_decls") || is("agent_decl") || is("inputs")
                || is("messages") || is("args") || is("procs") || is("cases") || is("branches") || is("send_single")
                || is("send_multiple") || is("var_ref_kind")),
            _ => true,
        }
    }

    /// Whether grammar node `node` becomes a graph node: its kind passes
    /// [`Self::should_include`], and in Rholang it is a named node.
    pub fn should_include_node(&self, tree: &SyntaxTree, node: usize, include_comments: bool) -> (r: bool)
        requires
            tree.has_node(node as int),
        ensures
            r == node_included(self.language_view(), tree, node as int, include_comments),
    {
        if !self.should_include(tree.kind(node), include_comments) {
            return false;
        }
        if self.language == Language::Rholang && !tree.is_named(node) {
            return false;
        }
        true
    }

    fn signature(name: String, return_type: Option<TypeInfo>, is_static: bool, is_async: bool, visibility: Visibility) -> (r: MethodSignature)
        ensures
            r@ == sig(name@, type_view(return_type), is_static, is_async, visibility),
    {
        let r = MethodSignature { name, params: Vec::new(), return_type, is_static, is_async, visibility };
        proof { assert(r.params@.map_values(|p: String| p@) =~= Seq::empty()); }
        r
    }
}


/// In the Rust table, grammar kind `if_expression` maps to `If` for every node of every tree.
proof fn lemma_rust_if_expression_maps_to_if(t: &SyntaxTree, n: int)
    ensures
        mapped_kind(Language::Rust, t, n, "if_expression"@) == KindView::If,
{
    reveal_strlit("if_expression");
    reveal_strlit("source_file");
    assert("if_expression"@.len() != "source_file"@.len());
    reveal_strlit("mod_item");
    assert("if_expression"@.len() != "mod_item"@.len());
    reveal_strlit("struct_item");
    assert("if_expression"@.len() != "struct_item"@.len());
    reveal_strlit("enum_item");
    assert("if_expression"@.len() != "enum_item"@.len());
    reveal_strlit("trait_item");
    assert("if_expression"@.len() != "trait_item"@.len());
    reveal_strlit("impl_item");
    assert("if_expression"@.len() != "impl_item"@.len());
    reveal_strlit("function_item");
    assert("if_expression"@[0] != "function_item"@[0]);
    reveal_strlit("function_signature_item");
    assert("if_expression"@.len() != "function_signature_item"@.len());
    reveal_strlit("closure_expression");
    assert("if_expression"@.len() != "closure_expression"@.len());
    reveal_strlit("parameter");
    assert("if_expression"@.len() != "parameter"@.len());
    reveal_strlit("block");
    assert("if_expression"@.len() != "block"@.len());
    reveal_strlit("let_declaration");
    assert("if_expression"@.len() != "let_declaration"@.len());
    reveal_strlit("const_item");
    assert("if_expression"@.len() != "const_item"@.len());
    reveal_strlit("static_item");
    assert("if_expression"@.len() != "static_item"@.len());
    reveal_strlit("field_declaration");
    assert("if_expression"@.len() != "field_declaration"@.len());
    assert(rust_kind(t, n, "if_expression"@) == KindView::If);
}

/// In the Rust table, grammar kind `else_clause` maps to `Else` for every node of every tree.
proof fn lemma_rust_else_clause_maps_to_else(t: &SyntaxTree, n: int)
    ensures
        mapped_kind(Language::Rust, t, n, "else_clause"@) == KindView::Else,
{
    reveal_strlit("else_clause");
    reveal_strlit("source_file");
    assert("else_clause"@[0] != "source_file"@[0]);
    reveal_strlit("mod_item");
    assert("else_clause"@.len() != "mod_item"@.len());
    reveal_strlit("struct_item");
    assert("else_clause"@[0] != "struct_item"@[0]);
    reveal_strlit("enum_item");
    assert("else_clause"@.len() != "enum_item"@.len());
    reveal_strlit("trait_item");
    assert("else_clause"@.len() != "trait_item"@.len());
    reveal_strlit("impl_item");
    assert("else_clause"@.len() != "impl_item"@.len());
    reveal_strlit("function_item");
    assert("else_clause"@.len() != "function_item"@.len());
    reveal_strlit("function_signature_item");
    assert("else_clause"@.len() != "function_signature_item"@.len());
    reveal_strlit("closure_expression");
    assert("else_clause"@.len() != "closure_expression"@.len());
    reveal_strlit("parameter");
    assert("else_clause"@.len() != "parameter"@.len());
    reveal_strlit("block");
    assert("else_clause"@.len() != "block"@.len());
    reveal_strlit("let_declaration");
    assert("else_clause"@.len() != "let_declaration"@.len());
    reveal_strlit("const_item");
    assert("else_clause"@.len() != "const_item"@.len());
    reveal_strlit("static_item");
    assert("else_clause"@[0] != "static_item"@[0]);
    reveal_strlit("field_declaration");
    assert("else_clause"@.len() != "field_declaration"@.len());
    reveal_strlit("if_expression");
    assert("else_clause"@.len() != "if_expression"@.len());
    assert(rust_kind(t, n, "else_clause"@) == KindView::Else);
}

/// In the Rust table, grammar kind `while_expression` maps to `While` for every node of every tree.
proof fn lemma_rust_while_expression_maps_to_while(t: &SyntaxTree, n: int)
    ensures
        mapped_kind(Language::Rust, t, n, "while_expression"@) == KindView::While,
{
    reveal_strlit("while_expression");
    reveal_strlit("source_file");
    assert("while_expression"@.len() != "source_file"@.len());
    reveal_strlit("mod_item");
    assert("while_expression"@.len() != "mod_item"@.len());
    reveal_strlit("struct_item");
    assert("while_expression"@.len() != "struct_item"@.len());
    reveal_strlit("enum_item");
    assert("while_expression"@.len() != "enum_item"@.len());
    reveal_strlit("trait_item");
    assert("while_expression"@.len() != "trait_item"@.len());
    reveal_strlit("impl_item");
    assert("while_expression"@.len() != "impl_item"@.len());
    reveal_strlit("function_item");
    assert("while_expression"@.len() != "function_item"@.len());
    reveal_strlit("function_signature_item");
    assert("while_expression"@.len() != "function_signature_item"@.len());
    reveal_strlit("closure_expression");
    assert("while_expression"@.len() != "closure_expression"@.len());
    reveal_strlit("parameter");
    assert("while_expression"@.len() != "parameter"@.len());
    reveal_strlit("block");
    assert("while_expression"@.len() != "block"@.len());
    reveal_strlit("let_declaration");
    assert("while_expression"@.len() != "let_declaration"@.len());
    reveal_strlit("const_item");
    assert("while_expression"@.len() != "const_item"@.len());
    reveal_strlit("static_item");
    assert("while_expression"@.len() != "static_item"@.len());
    reveal_strlit("field_declaration");
    assert("while_expression"@.len() != "field_declaration"@.len());
    reveal_strlit("if_expression");
    assert("while_expression"@.len() != "if_expression"@.len());
    reveal_strlit("else_clause");
    assert("while_expression"@.len() != "else_clause"@.len());
    assert(rust_kind(t, n, "while_expression"@) == KindView::While);
}

/// In the Rust table, grammar kind `for_expression` maps to `For` for every node of every tree.
proof fn lemma_rust_for_expression_maps_to_for(t: &SyntaxTree, n: int)
    ensures
        mapped_kind(Language::Rust, t, n, "for_expression"@) == KindView::For,
{
    reveal_strlit("for_expression");
    reveal_strlit("source_file");
    assert("for_expression"@.len() != "source_file"@.len());
    reveal_strlit("mod_item");
    assert("for_expression"@.len() != "mod_item"@.len());
    reveal_strlit("struct_item");
    assert("for_expression"@.len() != "struct_item"@.len());
    reveal_strlit("enum_item");
    assert("for_expression"@.len() != "enum_item"@.len());
    reveal_strlit("trait_item");
    assert("for_expression"@.len() != "trait_item"@.len());
    reveal_strlit("impl_item");
    assert("for_expression"@.len() != "impl_item"@.len());
    reveal_strlit("function_item");
    assert("for_expression"@.len() != "function_item"@.len());
    reveal_strlit("function_signature_item");
    assert("for_expression"@.len() != "function_signature_item"@.len());
    reveal_strlit("closure_expression");
    assert("for_expression"@.len() != "closure_expression"@.len());
    reveal_strlit("parameter");
    assert("for_expression"@.len() != "parameter"@.len());
    reveal_strlit("block");
    assert("for_expression"@.len() != "block"@.len());
    reveal_strlit("let_declaration");
    assert("for_expression"@.len() != "let_declaration"@.len());
    reveal_strlit("const_item");
    assert("for_expression"@.len() != "const_item"@.len());
    reveal_strlit("static_item");
    assert("for_expression"@.len() != "static_item"@.len());
    reveal_strlit("field_declaration");
    assert("for_expression"@.len() != "field_declaration"@.len());
    reveal_strlit("if_expression");
    assert("for_expression"@.len() != "if_expression"@.len());
    reveal_strlit("else_clause");
    assert("for_expression"@.len() != "else_clause"@.len());
    reveal_strlit("while_expression");
    assert("for_expression"@.len() != "while_expression"@.len());
    assert(rust_kind(t, n, "for_expression"@) == KindView::For);
}

/// In the Rust table, grammar kind `loop_expression` maps to `Loop` for every node of every tree.
proof fn lemma_rust_loop_expression_maps_to_loop(t: &SyntaxTree, n: int)
    ensures
        mapped_kind(Language::Rust, t, n, "loop_expression"@) == KindView::Loop,
{
    reveal_strlit("loop_expression");
    reveal_strlit("source_file");
    assert("loop_expression"@.len() != "source_file"@.len());
    reveal_strlit("mod_item");
    assert("loop_expression"@.len() != "mod_item"@.len());
    reveal_strlit("struct_item");
    assert("loop_expression"@.len() != "struct_item"@.len());
    reveal_strlit("enum_item");
    assert("loop_expression"@.len() != "enum_item"@.len());
    reveal_strlit("trait_item");
    assert("loop_expression"@.len() != "trait_item"@.len());
    reveal_strlit("impl_item");
    assert("loop_expression"@.len() != "impl_item"@.len());
    reveal_strlit("function_item");
    assert("loop_expression"@.len() != "function_item"@.len());
    reveal_strlit("function_signature_item");
    assert("loop_expression"@.len() != "function_signature_item"@.len());
    reveal_strlit("closure_expression");
    assert("loop_expression"@.len() != "closure_expression"@.len());
    reveal_strlit("parameter");
    assert("loop_expression"@.len() != "parameter"@.len());
    reveal_strlit("block");
    assert("loop_expression"@.len() != "block"@.len());
    reveal_strlit("let_declaration");
    assert("loop_expression"@[1] != "let_declaration"@[1]);
    reveal_strlit("const_item");
    assert("loop_expression"@.len() != "const_item"@.len());
    reveal_strlit("static_item");
    assert("loop_expression"@.len() != "static_item"@.len());
    reveal_strlit("field_declaration");
    assert("loop_expression"@.len() != "field_declaration"@.len());
    reveal_strlit("if_expression");
    assert("loop_expression"@.len() != "if_expression"@.len());
    reveal_strlit("else_clause");
    assert("loop_expression"@.len() != "else_clause"@.len());
    reveal_strlit("while_expression");
    assert("loop_expression"@.len() != "while_expression"@.len());
    reveal_strlit("for_expression");
    assert("loop_expression"@.len() != "for_expression"@.len());
    assert(rust_kind(t, n, "loop_expression"@) == KindView::Loop);
}

/// In the Rust table, grammar kind `match_expression` maps to `Match` for every node of every tree.
proof fn lemma_rust_match_expression_maps_to_match(t: &SyntaxTree, n: int)
    ensures
        mapped_kind(Language::Rust, t, n, "match_expression"@) == KindView::Match,
{
    reveal_strlit("match_expression");
    reveal_strlit("source_file");
    assert("match_expression"@.len() != "source_file"@.len());
    reveal_strlit("mod_item");
    assert("match_expression"@.len() != "mod_item"@.len());
    reveal_strlit("struct_item");
    assert("match_expression"@.len() != "struct_item"@.len());
    reveal_strlit("enum_item");
    assert("match_expression"@.len() != "enum_item"@.len());
    reveal_strlit("trait_item");
    assert("match_expression"@.len() != "trait_item"@.len());
    reveal_strlit("impl_item");
    assert("match_expression"@.len() != "impl_item"@.len());
    reveal_strlit("function_item");
    assert("match_expression"@.len() != "function_item"@.len());
    reveal_strlit("function_signature_item");
    assert("match_expression"@.len() != "function_signature_item"@.len());
    reveal_strlit("closure_expression");
    assert("match_expression"@.len() != "closure_expression"@.len());
    reveal_strlit("parameter");
    assert("match_expression"@.len() != "parameter"@.len());
    reveal_strlit("block");
    assert("match_expression"@.len() != "block"@.len());
    reveal_strlit("let_declaration");
    assert("match_expression"@.len() != "let_declaration"@.len());
    reveal_strlit("const_item");
    assert("match_expression"@.len() != "const_item"@.len());
    reveal_strlit("static_item");
    assert("match_expression"@.len() != "static_item"@.len());
    reveal_strlit("field_declaration");
    assert("match_expression"@.len() != "field_declaration"@.len());
    reveal_strlit("if_expression");
    assert("match_expression"@.len() != "if_expression"@.len());
    reveal_strlit("else_clause");
    assert("match_expression"@.len() != "else_clause"@.len());
    reveal_strlit("while_expression");
    assert("match_expression"@[0] != "while_expression"@[0]);
    reveal_strlit("for_expression");
    assert("match_expression"@.len() != "for_expression"@.len());
    reveal_strlit("loop_expression");
    assert("match_expression"@.len() != "loop_expression"@.len());
    assert(rust_kind(t, n, "match_expression"@) == KindView::Match);
}

/// In the Rust table, grammar kind `match_arm` maps to `MatchArm` for every node of every tree.
proof fn lemma_rust_match_arm_maps_to_match_arm(t: &SyntaxTree, n: int)
    ensures
        mapped_kind(Language::Rust, t, n, "match_arm"@) == KindView::MatchArm,
{
    reveal_strlit("match_arm");
    reveal_strlit("source_file");
    assert("match_arm"@.len() != "source_file"@.len());
    reveal_strlit("mod_item");
    assert("match_arm"@.len() != "mod_item"@.len());
    reveal_strlit("struct_item");
    assert("match_arm"@.len() != "struct_item"@.len());
    reveal_strlit("enum_item");
    assert("match_arm"@[0] != "enum_item"@[0]);
    reveal_strlit("trait_item");
    assert("match_arm"@.len() != "trait_item"@.len());
    reveal_strlit("impl_item");
    assert("match_arm"@[0] != "impl_item"@[0]);
    reveal_strlit("function_item");
    assert("match_arm"@.len() != "function_item"@.len());
    reveal_strlit("function_signature_item");
    assert("match_arm"@.len() != "function_signature_item"@.len());
    reveal_strlit("closure_expression");
    assert("match_arm"@.len() != "closure_expression"@.len());
    reveal_strlit("parameter");
    assert("match_arm"@[0] != "parameter"@[0]);
    reveal_strlit("block");
    assert("match_arm"@.len() != "block"@.len());
    reveal_strlit("let_declaration");
    assert("match_arm"@.len() != "let_declaration"@.len());
    reveal_strlit("const_item");
    assert("match_arm"@.len() != "const_item"@.len());
    reveal_strlit("static_item");
    assert("match_arm"@.len() != "static_item"@.len());
    reveal_strlit("field_declaration");
    assert("match_arm"@.len() != "field_declaration"@.len());
    reveal_strlit("if_expression");
    assert("match_arm"@.len() != "if_expression"@.len());
    reveal_strlit("else_clause");
    assert("match_arm"@.len() != "else_clause"@.len());
    reveal_strlit("while_expression");
    assert("match_arm"@.len() != "while_expression"@.len());
    reveal_strlit("for_expression");
    assert("match_arm"@.len() != "for_expression"@.len());
    reveal_strlit("loop_expression");
    assert("match_arm"@.len() != "loop_expression"@.len());
    reveal_strlit("match_expression");
    assert("match_arm"@.len() != "match_expression"@.len());
    assert(rust_kind(t, n, "match_arm"@) == KindView::MatchArm);
}

/// In the Rust table, grammar kind `return_expression` maps to `Return` for every node of every tree.
proof fn lemma_rust_return_expression_maps_to_return(t: &SyntaxTree, n: int)
    ensures
        mapped_kind(Language::Rust, t, n, "return_expression"@) == KindView::Return,
{
    reveal_strlit("return_expression");
    reveal_strlit("source_file");
    assert("return_expression"@.len() != "source_file"@.len());
    reveal_strlit("mod_item");
    assert("return_expression"@.len() != "mod_item"@.len());
    reveal_strlit("struct_item");
    assert("return_expression"@.len() != "struct_item"@.len());
    reveal_strlit("enum_item");
    assert("return_expression"@.len() != "enum_item"@.len());
    reveal_strlit("trait_item");
    assert("return_expression"@.len() != "trait_item"@.len());
    reveal_strlit("impl_item");
    assert("return_expression"@.len() != "impl_item"@.len());
    reveal_strlit("function_item");
    assert("return_expression"@.len() != "function_item"@.len());
    reveal_strlit("function_signature_item");
    assert("return_expression"@.len() != "function_signature_item"@.len());
    reveal_strlit("closure_expression");
    assert("return_expression"@.len() != "closure_expression"@.len());
    reveal_strlit("parameter");
    assert("return_expression"@.len() != "parameter"@.len());
    reveal_strlit("block");
    assert("return_expression"@.len() != "block"@.len());
    reveal_strlit("let_declaration");
    assert("return_expression"@.len() != "let_declaration"@.len());
    reveal_strlit("const_item");
    assert("return_expression"@.len() != "const_item"@.len());
    reveal_strlit("static_item");
    assert("return_expression"@.len() != "static_item"@.len());
    reveal_strlit("field_declaration");
    assert("return_expression"@[0] != "field_declaration"@[0]);
    reveal_strlit("if_expression");
    assert("return_expression"@.len() != "if_expression"@.len());
    reveal_strlit("else_clause");
    assert("return_expression"@.len() != "else_clause"@.len());
    reveal_strlit("while_expression");
    assert("return_expression"@.len() != "while_expression"@.len());
    reveal_strlit("for_expression");
    assert("return_expression"@.len() != "for_expression"@.len());
    reveal_strlit("loop_expression");
    assert("return_expression"@.len() != "loop_expression"@.len());
    reveal_strlit("match_expression");
    assert("return_expression"@.len() != "match_expression"@.len());
    reveal_strlit("match_arm");
    assert("return_expression"@.len() != "match_arm"@.len());
    assert(rust_kind(t, n, "return_expression"@) == KindView::Return);
}

/// In the Rust table, grammar kind `break_expression` maps to `Break` for every node of every tree.
proof fn lemma_rust_break_expression_maps_to_break(t: &SyntaxTree, n: int)
    ensures
        mapped_kind(Language::Rust, t, n, "break_expression"@) == KindView::Break,
{
    reveal_strlit("break_expression");
    reveal_strlit("source_file");
    assert("break_expression"@.len() != "source_file"@.len());
    reveal_strlit("mod_item");
    assert("break_expression"@.len() != "mod_item"@.len());
    reveal_strlit("struct_item");
    assert("break_expression"@.len() != "struct_item"@.len());
    reveal_strlit("enum_item");
    assert("break_expression"@.len() != "enum_item"@.len());
    reveal_strlit("trait_item");
    assert("break_expression"@.len() != "trait_item"@.len());
    reveal_strlit("impl_item");
    assert("break_expression"@.len() != "impl_item"@.len());
    reveal_strlit("function_item");
    assert("break_expression"@.len() != "function_item"@.len());
    reveal_strlit("function_signature_item");
    assert("break_expression"@.len() != "function_signature_item"@.len());
    reveal_strlit("closure_expression");
    assert("break_expression"@.len() != "closure_expression"@.len());
    reveal_strlit("parameter");
    assert("break_expression"@.len() != "parameter"@.len());
    reveal_strlit("block");
    assert("break_expression"@.len() != "block"@.len());
    reveal_strlit("let_declaration");
    assert("break_expression"@.len() != "let_declaration"@.len());
    reveal_strlit("const_item");
    assert("break_expression"@.len() != "const_item"@.len());
    reveal_strlit("static_item");
    assert("break_expression"@.len() != "static_item"@.len());
    reveal_strlit("field_declaration");
    assert("break_expression"@.len() != "field_declaration"@.len());
    reveal_strlit("if_expression");
    assert("break_expression"@.len() != "if_expression"@.len());
    reveal_strlit("else_clause");
    assert("break_expression"@.len() != "else_clause"@.len());
    reveal_strlit("while_expression");
    assert("break_expression"@[0] != "while_expression"@[0]);
    reveal_strlit("for_expression");
    assert("break_expression"@.len() != "for_expression"@.len());
    reveal_strlit("loop_expression");
    assert("break_expression"@.len() != "loop_expression"@.len());
    reveal_strlit("match_expression");
    assert("break_expression"@[0] != "match_expression"@[0]);
    reveal_strlit("match_arm");
    assert("break_expression"@.len() != "match_arm"@.len());
    reveal_strlit("return_expression");
    assert("break_expression"@.len() != "return_expression"@.len());
    assert(rust_kind(t, n, "break_expression"@) == KindView::Break);
}

/// In the Rust table, grammar kind `continue_expression` maps to `Continue` for every node of every tree.
proof fn lemma_rust_continue_expression_maps_to_continue(t: &SyntaxTree, n: int)
    ensures
        mapped_kind(Language::Rust, t, n, "continue_expression"@) == KindView::Continue,
{
    reveal_strlit("continue_expression");
    reveal_strlit("source_file");
    assert("continue_expression"@.len() != "source_file"@.len());
    reveal_strlit("mod_item");
    assert("continue_expression"@.len() != "mod_item"@.len());
    reveal_strlit("struct_item");
    assert("continue_expression"@.len() != "struct_item"@.len());
    reveal_strlit("enum_item");
    assert("continue_expression"@.len() != "enum_item"@.len());
    reveal_strlit("trait_item");
    assert("continue_expression"@.len() != "trait_item"@.len());
    reveal_strlit("impl_item");
    assert("continue_expression"@.len() != "impl_item"@.len());
    reveal_strlit("function_item");
    assert("continue_expression"@.len() != "function_item"@.len());
    reveal_strlit("function_signature_item");
    assert("continue_expression"@.len() != "function_signature_item"@.len());
    reveal_strlit("closure_expression");
    assert("continue_expression"@.len() != "closure_expression"@.len());
    reveal_strlit("parameter");
    assert("continue_expression"@.len() != "parameter"@.len());
    reveal_strlit("block");
    assert("continue_expression"@.len() != "block"@.len());
    reveal_strlit("let_declaration");
    assert("continue_expression"@.len() != "let_declaration"@.len());
    reveal_strlit("const_item");
    assert("continue_expression"@.len() != "const_item"@.len());
    reveal_strlit("static_item");
    assert("continue_expression"@.len() != "static_item"@.len());
    reveal_strlit("field_declaration");
    assert("continue_expression"@.len() != "field_declaration"@.len());
    reveal_strlit("if_expression");
    assert("continue_expression"@.len() != "if_expression"@.len());
    reveal_strlit("else_clause");
    assert("continue_expression"@.len() != "else_clause"@.len());
    reveal_strlit("while_expression");
    assert("continue_expression"@.len() != "while_expression"@.len());
    reveal_strlit("for_expression");
    assert("continue_expression"@.len() != "for_expression"@.len());
    reveal_strlit("loop_expression");
    assert("continue_expression"@.len() != "loop_expression"@.len());
    reveal_strlit("match_expression");
    assert("continue_expression"@.len() != "match_expression"@.len());
    reveal_strlit("match_arm");
    assert("continue_expression"@.len() != "match_arm"@.len());
    reveal_strlit("return_expression");
    assert("continue_expression"@.len() != "return_expression"@.len());
    reveal_strlit("break_expression");
    assert("continue_expression"@.len() != "break_expression"@.len());
    assert(rust_kind(t, n, "continue_expression"@) == KindView::Continue);
}

/// In the Rust table, grammar kind `try_expression` maps to `Try` for every node of every tree.
proof fn lemma_rust_try_expression_maps_to_try(t: &SyntaxTree, n: int)
    ensures
        mapped_kind(Language::Rust, t, n, "try_expression"@) == KindView::Try,
{
    reveal_strlit("try_expression");
    reveal_strlit("source_file");
    assert("try_expression"@.len() != "source_file"@.len());
    reveal_strlit("mod_item");
    assert("try_expression"@.len() != "mod_item"@.len());
    reveal_strlit("struct_item");
    assert("try_expression"@.len() != "struct_item"@.len());
    reveal_strlit("enum_item");
    assert("try_expression"@.len() != "enum_item"@.len());
    reveal_strlit("trait_item");
    assert("try_expression"@.len() != "trait_item"@.len());
    reveal_strlit("impl_item");
    assert("try_expression"@.len() != "impl_item"@.len());
    reveal_strlit("function_item");
    assert("try_expression"@.len() != "function_item"@.len());
    reveal_strlit("function_signature_item");
    assert("try_expression"@.len() != "function_signature_item"@.len());
    reveal_strlit("closure_expression");
    assert("try_expression"@.len() != "closure_expression"@.len());
    reveal_strlit("parameter");
    assert("try_expression"@.len() != "parameter"@.len());
    reveal_strlit("block");
    assert("try_expression"@.len() != "block"@.len());
    reveal_strlit("let_declaration");
    assert("try_expression"@.len() != "let_declaration"@.len());
    reveal_strlit("const_item");
    assert("try_expression"@.len() != "const_item"@.len());
    reveal_strlit("static_item");
    assert("try_expression"@.len() != "static_item"@.len());
    reveal_strlit("field_declaration");
    assert("try_expression"@.len() != "field_declaration"@.len());
    reveal_strlit("if_expression");
    assert("try_expression"@.len() != "if_expression"@.len());
    reveal_strlit("else_clause");
    assert("try_expression"@.len() != "else_clause"@.len());
    reveal_strlit("while_expression");
    assert("try_expression"@.len() != "while_expression"@.len());
    reveal_strlit("for_expression");
    assert("try_expression"@[0] != "for_expression"@[0]);
    reveal_strlit("loop_expression");
    assert("try_expression"@.len() != "loop_expression"@.len());
    reveal_strlit("match_expression");
    assert("try_expression"@.len() != "match_expression"@.len());
    reveal_strlit("match_arm");
    assert("try_expression"@.len() != "match_arm"@.len());
    reveal_strlit("return_expression");
    assert("try_expression"@.len() != "return_expression"@.len());
    reveal_strlit("break_expression");
    assert("try_expression"@.len() != "break_expression"@.len());
    reveal_strlit("continue_expression");
    assert("try_expression"@.len() != "continue_expression"@.len());
    assert(rust_kind(t, n, "try_expression"@) == KindView::Try);
}

/// In the Rust table, grammar kind `await_expression` maps to `Await` for every node of every tree.
proof fn lemma_rust_await_expression_maps_to_await(t: &SyntaxTree, n: int)
    ensures
        mapped_kind(Language::Rust, t, n, "await_expression"@) == KindView::Await,
{
    reveal_strlit("await_expression");
    reveal_strlit("source_file");
    assert("await_expression"@.len() != "source_file"@.len());
    reveal_strlit("mod_item");
    assert("await_expression"@.len() != "mod_item"@.len());
    reveal_strlit("struct_item");
    assert("await_expression"@.len() != "struct_item"@.len());
    reveal_strlit("enum_item");
    assert("await_expression"@.len() != "enum_item"@.len());
    reveal_strlit("trait_item");
    assert("await_expression"@.len() != "trait_item"@.len());
    reveal_strlit("impl_item");
    assert("await_expression"@.len() != "impl_item"@.len());
    reveal_strlit("function_item");
    assert("await_expression"@.len() != "function_item"@.len());
    reveal_strlit("function_signature_item");
    assert("await_expression"@.len() != "function_signature_item"@.len());
    reveal_strlit("closure_expression");
    assert("await_expression"@.len() != "closure_expression"@.len());
    reveal_strlit("parameter");
    assert("await_expression"@.len() != "parameter"@.len());
    reveal_strlit("block");
    assert("await_expression"@.len() != "block"@.len());
    reveal_strlit("let_declaration");
    assert("await_expression"@.len() != "let_declaration"@.len());
    reveal_strlit("const_item");
    assert("await_expression"@.len() != "const_item"@.len());
    reveal_strlit("static_item");
    assert("await_expression"@.len() != "static_item"@.len());
    reveal_strlit("field_declaration");
    assert("await_expression"@.len() != "field_declaration"@.len());
    reveal_strlit("if_expression");
    assert("await_expression"@.len() != "if_expression"@.len());
    reveal_strlit("else_clause");
    assert("await_expression"@.len() != "else_clause"@.len());
    reveal_strlit("while_expression");
    assert("await_expression"@[0] != "while_expression"@[0]);
    reveal_strlit("for_expression");
    assert("await_expression"@.len() != "for_expression"@.len());
    reveal_strlit("loop_expression");
    assert("await_expression"@.len() != "loop_expression"@.len());
    reveal_strlit("match_expression");
    assert("await_expression"@[0] != "match_expression"@[0]);
    reveal_strlit("match_arm");
    assert("await_expression"@.len() != "match_arm"@.len());
    reveal_strlit("return_expression");
    assert("await_expression"@.len() != "return_expression"@.len());
    reveal_strlit("break_expression");
    assert("await_expression"@[0] != "break_expression"@[0]);
    reveal_strlit("continue_expression");
    assert("await_expression"@.len() != "continue_expression"@.len());
    reveal_strlit("try_expression");
    assert("await_expression"@.len() != "try_expression"@.len());
    reveal_strlit("binary_expression");
    assert("await_expression"@.len() != "binary_expression"@.len());
    reveal_strlit("unary_expression");
    assert("await_expression"@[0] != "unary_expression"@[0]);
    reveal_strlit("assignment_expression");
    assert("await_expression"@.len() != "assignment_expression"@.len());
    reveal_strlit("compound_assignment_expr");
    assert("await_expression"@.len() != "compound_assignment_expr"@.len());
    reveal_strlit("call_expression");
    assert("await_expression"@.len() != "call_expression"@.len());
    reveal_strlit("method_call_expression");
    assert("await_expression"@.len() != "method_call_expression"@.len());
    reveal_strlit("field_expression");
    assert("await_expression"@[0] != "field_expression"@[0]);
    reveal_strlit("index_expression");
    assert("await_expression"@[0] != "index_expression"@[0]);
    reveal_strlit("identifier");
    assert("await_expression"@.len() != "identifier"@.len());
    reveal_strlit("type_identifier");
    assert("await_expression"@.len() != "type_identifier"@.len());
    reveal_strlit("field_identifier");
    assert("await_expression"@[0] != "field_identifier"@[0]);
    assert(rust_kind(t, n, "await_expression"@) == KindView::Await);
}

/// In the Python table, grammar kind `if_statement` maps to `If` for every node of every tree.
proof fn lemma_python_if_statement_maps_to_if(t: &SyntaxTree, n: int)
    ensures
        mapped_kind(Language::Python, t, n, "if_statement"@) == KindView::If,
{
    reveal_strlit("if_statement");
    reveal_strlit("module");
    assert("if_statement"@.len() != "module"@.len());
    reveal_strlit("class_definition");
    assert("if_statement"@.len() != "class_definition"@.len());
    reveal_strlit("function_definition");
    assert("if_statement"@.len() != "function_definition"@.len());
    reveal_strlit("lambda");
    assert("if_statement"@.len() != "lambda"@.len());
    reveal_strlit("parameters");
    assert("if_statement"@.len() != "parameters"@.len());
    reveal_strlit("default_parameter");
    assert("if_statement"@.len() != "default_parameter"@.len());
    reveal_strlit("typed_parameter");
    assert("if_statement"@.len() != "typed_parameter"@.len());
    reveal_strlit("block");
    assert("if_statement"@.len() != "block"@.len());
    reveal_strlit("assignment");
    assert("if_statement"@.len() != "assignment"@.len());
    reveal_strlit("augmented_assignment");
    assert("if_statement"@.len() != "augmented_assignment"@.len());
    assert(python_kind(t, n, "if_statement"@) == KindView::If);
}

/// In the Python table, grammar kind `elif_clause` maps to `Else` for every node of every tree.
proof fn lemma_python_elif_clause_maps_to_else(t: &SyntaxTree, n: int)
    ensures
        mapped_kind(Language::Python, t, n, "elif_clause"@) == KindView::Else,
{
    reveal_strlit("elif_clause");
    reveal_strlit("module");
    assert("elif_clause"@.len() != "module"@.len());
    reveal_strlit("class_definition");
    assert("elif_clause"@.len() != "class_definition"@.len());
    reveal_strlit("function_definition");
    assert("elif_clause"@.len() != "function_definition"@.len());
    reveal_strlit("lambda");
    assert("elif_clause"@.len() != "lambda"@.len());
    reveal_strlit("parameters");
    assert("elif_clause"@.len() != "parameters"@.len());
    reveal_strlit("default_parameter");
    assert("elif_clause"@.len() != "default_parameter"@.len());
    reveal_strlit("typed_parameter");
    assert("elif_clause"@.len() != "typed_parameter"@.len());
    reveal_strlit("block");
    assert("elif_clause"@.len() != "block"@.len());
    reveal_strlit("assignment");
    assert("elif_clause"@.len() != "assignment"@.len());
    reveal_strlit("augmented_assignment");
    assert("elif_clause"@.len() != "augmented_assignment"@.len());
    reveal_strlit("if_statement");
    assert("elif_clause"@.len() != "if_statement"@.len());
    assert(python_kind(t, n, "elif_clause"@) == KindView::Else);
}

/// In the Python table, grammar kind `else_clause` maps to `Else` for every node of every tree.
proof fn lemma_python_else_clause_maps_to_else(t: &SyntaxTree, n: int)
    ensures
        mapped_kind(Language::Python, t, n, "else_clause"@) == KindView::Else,
{
    reveal_strlit("else_clause");
    reveal_strlit("module");
    assert("else_clause"@.len() != "module"@.len());
    reveal_strlit("class_definition");
    assert("else_clause"@.len() != "class_definition"@.len());
    reveal_strlit("function_definition");
    assert("else_clause"@.len() != "function_definition"@.len());
    reveal_strlit("lambda");
    assert("else_clause"@.len() != "lambda"@.len());
    reveal_strlit("parameters");
    assert("else_clause"@.len() != "parameters"@.len());
    reveal_strlit("default_parameter");
    assert("else_clause"@.len() != "default_parameter"@.len());
    reveal_strlit("typed_parameter");
    assert("else_clause"@.len() != "typed_parameter"@.len());
    reveal_strlit("block");
    assert("else_clause"@.len() != "block"@.len());
    reveal_strlit("assignment");
    assert("else_clause"@.len() != "assignment"@.len());
    reveal_strlit("augmented_assignment");
    assert("else_clause"@.len() != "augmented_assignment"@.len());
    reveal_strlit("if_statement");
    assert("else_clause"@.len() != "if_statement"@.len());
    assert(python_kind(t, n, "else_clause"@) == KindView::Else);
}

/// In the Python table, grammar kind `while_statement` maps to `While` for every node of every tree.
proof fn lemma_python_while_statement_maps_to_while(t: &SyntaxTree, n: int)
    ensures
        mapped_kind(Language::Python, t, n, "while_statement"@) == KindView::While,
{
    reveal_strlit("while_statement");
    reveal_strlit("module");
    assert("while_statement"@.len() != "module"@.len());
    reveal_strlit("class_definition");
    assert("while_statement"@.len() != "class_definition"@.len());
    reveal_strlit("function_definition");
    assert("while_statement"@.len() != "function_definition"@.len());
    reveal_strlit("lambda");
    assert("while_statement"@.len() != "lambda"@.len());
    reveal_strlit("parameters");
    assert("while_statement"@.len() != "parameters"@.len());
    reveal_strlit("default_parameter");
    assert("while_statement"@.len() != "default_parameter"@.len());
    reveal_strlit("typed_parameter");
    assert("while_statement"@[0] != "typed_parameter"@[0]);
    reveal_strlit("block");
    assert("while_statement"@.len() != "block"@.len());
    reveal_strlit("assignment");
    assert("while_statement"@.len() != "assignment"@.len());
    reveal_strlit("augmented_assignment");
    assert("while_statement"@.len() != "augmented_assignment"@.len());
    reveal_strlit("if_statement");
    assert("while_statement"@.len() != "if_statement"@.len());
    reveal_strlit("elif_clause");
    assert("while_statement"@.len() != "elif_clause"@.len());
    reveal_strlit("else_clause");
    assert("while_statement"@.len() != "else_clause"@.len());
    assert(python_kind(t, n, "while_statement"@) == KindView::While);
}

/// In the Python table, grammar kind `for_statement` maps to `For` for every node of every tree.
proof fn lemma_python_for_statement_maps_to_for(t: &SyntaxTree, n: int)
    ensures
        mapped_kind(Language::Python, t, n, "for_statement"@) == KindView::For,
{
    reveal_strlit("for_statement");
    reveal_strlit("module");
    assert("for_statement"@.len() != "module"@.len());
    reveal_strlit("class_definition");
    assert("for_statement"@.len() != "class_definition"@.len());
    reveal_strlit("function_definition");
    assert("for_statement"@.len() != "function_definition"@.len());
    reveal_strlit("lambda");
    assert("for_statement"@.len() != "lambda"@.len());
    reveal_strlit("parameters");
    assert("for_statement"@.len() != "parameters"@.len());
    reveal_strlit("default_parameter");
    assert("for_statement"@.len() != "default_parameter"@.len());
    reveal_strlit("typed_parameter");
    assert("for_statement"@.len() != "typed_parameter"@.len());
    reveal_strlit("block");
    assert("for_statement"@.len() != "block"@.len());
    reveal_strlit("assignment");
    assert("for_statement"@.len() != "assignment"@.len());
    reveal_strlit("augmented_assignment");
    assert("for_statement"@.len() != "augmented_assignment"@.len());
    reveal_strlit("if_statement");
    assert("for_statement"@.len() != "if_statement"@.len());
    reveal_strlit("elif_clause");
    assert("for_statement"@.len() != "elif_clause"@.len());
    reveal_strlit("else_clause");
    assert("for_statement"@.len() != "else_clause"@.len());
    reveal_strlit("while_statement");
    assert("for_statement"@.len() != "while_statement"@.len());
    assert(python_kind(t, n, "for_statement"@) == KindView::For);
}

/// In the Python table, grammar kind `match_statement` maps to `Match` for every node of every tree.
proof fn lemma_python_match_statement_maps_to_match(t: &SyntaxTree, n: int)
    ensures
        mapped_kind(Language::Python, t, n, "match_statement"@) == KindView::Match,
{
    reveal_strlit("match_statement");
    reveal_strlit("module");
    assert("match_statement"@.len() != "module"@.len());
    reveal_strlit("class_definition");
    assert("match_statement"@.len() != "class_definition"@.len());
    reveal_strlit("function_definition");
    assert("match_statement"@.len() != "function_definition"@.len());
    reveal_strlit("lambda");
    assert("match_statement"@.len() != "lambda"@.len());
    reveal_strlit("parameters");
    assert("match_statement"@.len() != "parameters"@.len());
    reveal_strlit("default_parameter");
    assert("match_statement"@.len() != "default_parameter"@.len());
    reveal_strlit("typed_parameter");
    assert("match_statement"@[0] != "typed_parameter"@[0]);
    reveal_strlit("block");
    assert("match_statement"@.len() != "block"@.len());
    reveal_strlit("assignment");
    assert("match_statement"@.len() != "assignment"@.len());
    reveal_strlit("augmented_assignment");
    assert("match_statement"@.len() != "augmented_assignment"@.len());
    reveal_strlit("if_statement");
    assert("match_statement"@.len() != "if_statement"@.len());
    reveal_strlit("elif_clause");
    assert("match_statement"@.len() != "elif_clause"@.len());
    reveal_strlit("else_clause");
    assert("match_statement"@.len() != "else_clause"@.len());
    reveal_strlit("while_statement");
    assert("match_statement"@[0] != "while_statement"@[0]);
    reveal_strlit("for_statement");
    assert("match_statement"@.len() != "for_statement"@.len());
    assert(python_kind(t, n, "match_statement"@) == KindView::Match);
}

/// In the Python table, grammar kind `case_clause` maps to `MatchArm` for every node of every tree.
proof fn lemma_python_case_clause_maps_to_match_arm(t: &SyntaxTree, n: int)
    ensures
        mapped_kind(Language::Python, t, n, "case_clause"@) == KindView::MatchArm,
{
    reveal_strlit("case_clause");
    reveal_strlit("module");
    assert("case_clause"@.len() != "module"@.len());
    reveal_strlit("class_definition");
    assert("case_clause"@.len() != "class_definition"@.len());
    reveal_strlit("function_definition");
    assert("case_clause"@.len() != "function_definition"@.len());
    reveal_strlit("lambda");
    assert("case_clause"@.len() != "lambda"@.len());
    reveal_strlit("parameters");
    assert("case_clause"@.len() != "parameters"@.len());
    reveal_strlit("default_parameter");
    assert("case_clause"@.len() != "default_parameter"@.len());
    reveal_strlit("typed_parameter");
    assert("case_clause"@.len() != "typed_parameter"@.len());
    reveal_strlit("block");
    assert("case_clause"@.len() != "block"@.len());
    reveal_strlit("assignment");
    assert("case_clause"@.len() != "assignment"@.len());
    reveal_strlit("augmented_assignment");
    assert("case_clause"@.len() != "augmented_assignment"@.len());
    reveal_strlit("if_statement");
    assert("case_clause"@.len() != "if_statement"@.len());
    reveal_strlit("elif_clause");
    assert("case_clause"@[0] != "elif_clause"@[0]);
    reveal_strlit("else_clause");
    assert("case_clause"@[0] != "else_clause"@[0]);
    reveal_strlit("while_statement");
    assert("case_clause"@.len() != "while_statement"@.len());
    reveal_strlit("for_statement");
    assert("case_clause"@.len() != "for_statement"@.len());
    reveal_strlit("match_statement");
    assert("case_clause"@.len() != "match_statement"@.len());
    assert(python_kind(t, n, "case_clause"@) == KindView::MatchArm);
}

/// In the Python table, grammar kind `return_statement` maps to `Return` for every node of every tree.
proof fn lemma_python_return_statement_maps_to_return(t: &SyntaxTree, n: int)
    ensures
        mapped_kind(Language::Python, t, n, "return_statement"@) == KindView::Return,
{
    reveal_strlit("return_statement");
    reveal_strlit("module");
    assert("return_statement"@.len() != "module"@.len());
    reveal_strlit("class_definition");
    assert("return_statement"@[0] != "class_definition"@[0]);
    reveal_strlit("function_definition");
    assert("return_statement"@.len() != "function_definition"@.len());
    reveal_strlit("lambda");
    assert("return_statement"@.len() != "lambda"@.len());
    reveal_strlit("parameters");
    assert("return_statement"@.len() != "parameters"@.len());
    reveal_strlit("default_parameter");
    assert("return_statement"@.len() != "default_parameter"@.len());
    reveal_strlit("typed_parameter");
    assert("return_statement"@.len() != "typed_parameter"@.len());
    reveal_strlit("block");
    assert("return_statement"@.len() != "block"@.len());
    reveal_strlit("assignment");
    assert("return_statement"@.len() != "assignment"@.len());
    reveal_strlit("augmented_assignment");
    assert("return_statement"@.len() != "augmented_assignment"@.len());
    reveal_strlit("if_statement");
    assert("return_statement"@.len() != "if_statement"@.len());
    reveal_strlit("elif_clause");
    assert("return_statement"@.len() != "elif_clause"@.len());
    reveal_strlit("else_clause");
    assert("return_statement"@.len() != "else_clause"@.len());
    reveal_strlit("while_statement");
    assert("return_statement"@.len() != "while_statement"@.len());
    reveal_strlit("for_statement");
    assert("return_statement"@.len() != "for_statement"@.len());
    reveal_strlit("match_statement");
    assert("return_statement"@.len() != "match_statement"@.len());
    reveal_strlit("case_clause");
    assert("return_statement"@.len() != "case_clause"@.len());
    assert(python_kind(t, n, "return_statement"@) == KindView::Return);
}

/// In the Python table, grammar kind `break_statement` maps to `Break` for every node of every tree.
proof fn lemma_python_break_statement_maps_to_break(t: &SyntaxTree, n: int)
    ensures
        mapped_kind(Language::Python, t, n, "break_statement"@) == KindView::Break,
{
    reveal_strlit("break_statement");
    reveal_strlit("module");
    assert("break_statement"@.len() != "module"@.len());
    reveal_strlit("class_definition");
    assert("break_statement"@.len() != "class_definition"@.len());
    reveal_strlit("function_definition");
    assert("break_statement"@.len() != "function_definition"@.len());
    reveal_strlit("lambda");
    assert("break_statement"@.len() != "lambda"@.len());
    reveal_strlit("parameters");
    assert("break_statement"@.len() != "parameters"@.len());
    reveal_strlit("default_parameter");
    assert("break_statement"@.len() != "default_parameter"@.len());
    reveal_strlit("typed_parameter");
    assert("break_statement"@[0] != "typed_parameter"@[0]);
    reveal_strlit("block");
    assert("break_statement"@.len() != "block"@.len());
    reveal_strlit("assignment");
    assert("break_statement"@.len() != "assignment"@.len());
    reveal_strlit("augmented_assignment");
    assert("break_statement"@.len() != "augmented_assignment"@.len());
    reveal_strlit("if_statement");
    assert("break_statement"@.len() != "if_statement"@.len());
    reveal_strlit("elif_clause");
    assert("break_statement"@.len() != "elif_clause"@.len());
    reveal_strlit("else_clause");
    assert("break_statement"@.len() != "else_clause"@.len());
    reveal_strlit("while_statement");
    assert("break_statement"@[0] != "while_statement"@[0]);
    reveal_strlit("for_statement");
    assert("break_statement"@.len() != "for_statement"@.len());
    reveal_strlit("match_statement");
    assert("break_statement"@[0] != "match_statement"@[0]);
    reveal_strlit("case_clause");
    assert("break_statement"@.len() != "case_clause"@.len());
    reveal_strlit("return_statement");
    assert("break_statement"@.len() != "return_statement"@.len());
    assert(python_kind(t, n, "break_statement"@) == KindView::Break);
}

/// In the Python table, grammar kind `continue_statement` maps to `Continue` for every node of every tree.
proof fn lemma_python_continue_statement_maps_to_continue(t: &SyntaxTree, n: int)
    ensures
        mapped_kind(Language::Python, t, n, "continue_statement"@) == KindView::Continue,
{
    reveal_strlit("continue_statement");
    reveal_strlit("module");
    assert("continue_statement"@.len() != "module"@.len());
    reveal_strlit("class_definition");
    assert("continue_statement"@.len() != "class_definition"@.len());
    reveal_strlit("function_definition");
    assert("continue_statement"@.len() != "function_definition"@.len());
    reveal_strlit("lambda");
    assert("continue_statement"@.len() != "lambda"@.len());
    reveal_strlit("parameters");
    assert("continue_statement"@.len() != "parameters"@.len());
    reveal_strlit("default_parameter");
    assert("continue_statement"@.len() != "default_parameter"@.len());
    reveal_strlit("typed_parameter");
    assert("continue_statement"@.len() != "typed_parameter"@.len());
    reveal_strlit("block");
    assert("continue_statement"@.len() != "block"@.len());
    reveal_strlit("assignment");
    assert("continue_statement"@.len() != "assignment"@.len());
    reveal_strlit("augmented_assignment");
    assert("continue_statement"@.len() != "augmented_assignment"@.len());
    reveal_strlit("if_statement");
    assert("continue_statement"@.len() != "if_statement"@.len());
    reveal_strlit("elif_clause");
    assert("continue_statement"@.len() != "elif_clause"@.len());
    reveal_strlit("else_clause");
    assert("continue_statement"@.len() != "else_clause"@.len());
    reveal_strlit("while_statement");
    assert("continue_statement"@.len() != "while_statement"@.len());
    reveal_strlit("for_statement");
    assert("continue_statement"@.len() != "for_statement"@.len());
    reveal_strlit("match_statement");
    assert("continue_statement"@.len() != "match_statement"@.len());
    reveal_strlit("case_clause");
    assert("continue_statement"@.len() != "case_clause"@.len());
    reveal_strlit("return_statement");
    assert("continue_statement"@.len() != "return_statement"@.len());
    reveal_strlit("break_statement");
    assert("continue_statement"@.len() != "break_statement"@.len());
    assert(python_kind(t, n, "continue_statement"@) == KindView::Continue);
}

/// In the Python table, grammar kind `try_statement` maps to `Try` for every node of every tree.
proof fn lemma_python_try_statement_maps_to_try(t: &SyntaxTree, n: int)
    ensures
        mapped_kind(Language::Python, t, n, "try_statement"@) == KindView::Try,
{
    reveal_strlit("try_statement");
    reveal_strlit("module");
    assert("try_statement"@.len() != "module"@.len());
    reveal_strlit("class_definition");
    assert("try_statement"@.len() != "class_definition"@.len());
    reveal_strlit("function_definition");
    assert("try_statement"@.len() != "function_definition"@.len());
    reveal_strlit("lambda");
    assert("try_statement"@.len() != "lambda"@.len());
    reveal_strlit("parameters");
    assert("try_statement"@.len() != "parameters"@.len());
    reveal_strlit("default_parameter");
    assert("try_statement"@.len() != "default_parameter"@.len());
    reveal_strlit("typed_parameter");
    assert("try_statement"@.len() != "typed_parameter"@.len());
    reveal_strlit("block");
    assert("try_statement"@.len() != "block"@.len());
    reveal_strlit("assignment");
    assert("try_statement"@.len() != "assignment"@.len());
    reveal_strlit("augmented_assignment");
    assert("try_statement"@.len() != "augmented_assignment"@.len());
    reveal_strlit("if_statement");
    assert("try_statement"@.len() != "if_statement"@.len());
    reveal_strlit("elif_clause");
    assert("try_statement"@.len() != "elif_clause"@.len());
    reveal_strlit("else_clause");
    assert("try_statement"@.len() != "else_clause"@.len());
    reveal_strlit("while_statement");
    assert("try_statement"@.len() != "while_statement"@.len());
    reveal_strlit("for_statement");
    assert("try_statement"@[0] != "for_statement"@[0]);
    reveal_strlit("match_statement");
    assert("try_statement"@.len() != "match_statement"@.len());
    reveal_strlit("case_clause");
    assert("try_statement"@.len() != "case_clause"@.len());
    reveal_strlit("return_statement");
    assert("try_statement"@.len() != "return_statement"@.len());
    reveal_strlit("break_statement");
    assert("try_statement"@.len() != "break_statement"@.len());
    reveal_strlit("continue_statement");
    assert("try_statement"@.len() != "continue_statement"@.len());
    assert(python_kind(t, n, "try_statement"@) == KindView::Try);
}

/// In the Python table, grammar kind `except_clause` maps to `Catch` for every node of every tree.
proof fn lemma_python_except_clause_maps_to_catch(t: &SyntaxTree, n: int)
    ensures
        mapped_kind(Language::Python, t, n, "except_clause"@) == KindView::Catch,
{
    reveal_strlit("except_clause");
    reveal_strlit("module");
    assert("except_clause"@.len() != "module"@.len());
    reveal_strlit("class_definition");
    assert("except_clause"@.len() != "class_definition"@.len());
    reveal_strlit("function_definition");
    assert("except_clause"@.len() != "function_definition"@.len());
    reveal_strlit("lambda");
    assert("except_clause"@.len() != "lambda"@.len());
    reveal_strlit("parameters");
    assert("except_clause"@.len() != "parameters"@.len());
    reveal_strlit("default_parameter");
    assert("except_clause"@.len() != "default_parameter"@.len());
    reveal_strlit("typed_parameter");
    assert("except_clause"@.len() != "typed_parameter"@.len());
    reveal_strlit("block");
    assert("except_clause"@.len() != "block"@.len());
    reveal_strlit("assignment");
    assert("except_clause"@.len() != "assignment"@.len());
    reveal_strlit("augmented_assignment");
    assert("except_clause"@.len() != "augmented_assignment"@.len());
    reveal_strlit("if_statement");
    assert("except_clause"@.len() != "if_statement"@.len());
    reveal_strlit("elif_clause");
    assert("except_clause"@.len() != "elif_clause"@.len());
    reveal_strlit("else_clause");
    assert("except_clause"@.len() != "else_clause"@.len());
    reveal_strlit("while_statement");
    assert("except_clause"@.len() != "while_statement"@.len());
    reveal_strlit("for_statement");
    assert("except_clause"@[0] != "for_statement"@[0]);
    reveal_strlit("match_statement");
    assert("except_clause"@.len() != "match_statement"@.len());
    reveal_strlit("case_clause");
    assert("except_clause"@.len() != "case_clause"@.len());
    reveal_strlit("return_statement");
    assert("except_clause"@.len() != "return_statement"@.len());
    reveal_strlit("break_statement");
    assert("except_clause"@.len() != "break_statement"@.len());
    reveal_strlit("continue_statement");
    assert("except_clause"@.len() != "continue_statement"@.len());
    reveal_strlit("try_statement");
    assert("except_clause"@[0] != "try_statement"@[0]);
    assert(python_kind(t, n, "except_clause"@) == KindView::Catch);
}

/// In the Python table, grammar kind `finally_clause` maps to `Finally` for every node of every tree.
proof fn lemma_python_finally_clause_maps_to_finally(t: &SyntaxTree, n: int)
    ensures
        mapped_kind(Language::Python, t, n, "finally_clause"@) == KindView::Finally,
{
    reveal_strlit("finally_clause");
    reveal_strlit("module");
    assert("finally_clause"@.len() != "module"@.len());
    reveal_strlit("class_definition");
    assert("finally_clause"@.len() != "class_definition"@.len());
    reveal_strlit("function_definition");
    assert("finally_clause"@.len() != "function_definition"@.len());
    reveal_strlit("lambda");
    assert("finally_clause"@.len() != "lambda"@.len());
    reveal_strlit("parameters");
    assert("finally_clause"@.len() != "parameters"@.len());
    reveal_strlit("default_parameter");
    assert("finally_clause"@.len() != "default_parameter"@.len());
    reveal_strlit("typed_parameter");
    assert("finally_clause"@.len() != "typed_parameter"@.len());
    reveal_strlit("block");
    assert("finally_clause"@.len() != "block"@.len());
    reveal_strlit("assignment");
    assert("finally_clause"@.len() != "assignment"@.len());
    reveal_strlit("augmented_assignment");
    assert("finally_clause"@.len() != "augmented_assignment"@.len());
    reveal_strlit("if_statement");
    assert("finally_clause"@.len() != "if_statement"@.len());
    reveal_strlit("elif_clause");
    assert("finally_clause"@.len() != "elif_clause"@.len());
    reveal_strlit("else_clause");
    assert("finally_clause"@.len() != "else_clause"@.len());
    reveal_strlit("while_statement");
    assert("finally_clause"@.len() != "while_statement"@.len());
    reveal_strlit("for_statement");
    assert("finally_clause"@.len() != "for_statement"@.len());
    reveal_strlit("match_statement");
    assert("finally_clause"@.len() != "match_statement"@.len());
    reveal_strlit("case_clause");
    assert("finally_clause"@.len() != "case_clause"@.len());
    reveal_strlit("return_statement");
    assert("finally_clause"@.len() != "return_statement"@.len());
    reveal_strlit("break_statement");
    assert("finally_clause"@.len() != "break_statement"@.len());
    reveal_strlit("continue_statement");
    assert("finally_clause"@.len() != "continue_statement"@.len());
    reveal_strlit("try_statement");
    assert("finally_clause"@.len() != "try_statement"@.len());
    reveal_strlit("except_clause");
    assert("finally_clause"@.len() != "except_clause"@.len());
    assert(python_kind(t, n, "finally_clause"@) == KindView::Finally);
}

/// In the Python table, grammar kind `raise_statement` maps to `Throw` for every node of every tree.
proof fn lemma_python_raise_statement_maps_to_throw(t: &SyntaxTree, n: int)
    ensures
        mapped_kind(Language::Python, t, n, "raise_statement"@) == KindView::Throw,
{
    reveal_strlit("raise_statement");
    reveal_strlit("module");
    assert("raise_statement"@.len() != "module"@.len());
    reveal_strlit("class_definition");
    assert("raise_statement"@.len() != "class_definition"@.len());
    reveal_strlit("function_definition");
    assert("raise_statement"@.len() != "function_definition"@.len());
    reveal_strlit("lambda");
    assert("raise_statement"@.len() != "lambda"@.len());
    reveal_strlit("parameters");
    assert("raise_statement"@.len() != "parameters"@.len());
    reveal_strlit("default_parameter");
    assert("raise_statement"@.len() != "default_parameter"@.len());
    reveal_strlit("typed_parameter");
    assert("raise_statement"@[0] != "typed_parameter"@[0]);
    reveal_strlit("block");
    assert("raise_statement"@.len() != "block"@.len());
    reveal_strlit("assignment");
    assert("raise_statement"@.len() != "assignment"@.len());
    reveal_strlit("augmented_assignment");
    assert("raise_statement"@.len() != "augmented_assignment"@.len());
    reveal_strlit("if_statement");
    assert("raise_statement"@.len() != "if_statement"@.len());
    reveal_strlit("elif_clause");
    assert("raise_statement"@.len() != "elif_clause"@.len());
    reveal_strlit("else_clause");
    assert("raise_statement"@.len() != "else_clause"@.len());
    reveal_strlit("while_statement");
    assert("raise_statement"@[0] != "while_statement"@[0]);
    reveal_strlit("for_statement");
    assert("raise_statement"@.len() != "for_statement"@.len());
    reveal_strlit("match_statement");
    assert("raise_statement"@[0] != "match_statement"@[0]);
    reveal_strlit("case_clause");
    assert("raise_statement"@.len() != "case_clause"@.len());
    reveal_strlit("return_statement");
    assert("raise_statement"@.len() != "return_statement"@.len());
    reveal_strlit("break_statement");
    assert("raise_statement"@[0] != "break_statement"@[0]);
    reveal_strlit("continue_statement");
    assert("raise_statement"@.len() != "continue_statement"@.len());
    reveal_strlit("try_statement");
    assert("raise_statement"@.len() != "try_statement"@.len());
    reveal_strlit("except_clause");
    assert("raise_statement"@.len() != "except_clause"@.len());
    reveal_strlit("finally_clause");
    assert("raise_statement"@.len() != "finally_clause"@.len());
    assert(python_kind(t, n, "raise_statement"@) == KindView::Throw);
}

/// In the Python table, grammar kind `await` maps to `Await` for every node of every tree.
proof fn lemma_python_await_maps_to_await(t: &SyntaxTree, n: int)
    ensures
        mapped_kind(Language::Python, t, n, "await"@) == KindView::Await,
{
    reveal_strlit("await");
    reveal_strlit("module");
    assert("await"@.len() != "module"@.len());
    reveal_strlit("class_definition");
    assert("await"@.len() != "class_definition"@.len());
    reveal_strlit("function_definition");
    assert("await"@.len() != "function_definition"@.len());
    reveal_strlit("lambda");
    assert("await"@.len() != "lambda"@.len());
    reveal_strlit("parameters");
    assert("await"@.len() != "parameters"@.len());
    reveal_strlit("default_parameter");
    assert("await"@.len() != "default_parameter"@.len());
    reveal_strlit("typed_parameter");
    assert("await"@.len() != "typed_parameter"@.len());
    reveal_strlit("block");
    assert("await"@[0] != "block"@[0]);
    reveal_strlit("assignment");
    assert("await"@.len() != "assignment"@.len());
    reveal_strlit("augmented_assignment");
    assert("await"@.len() != "augmented_assignment"@.len());
    reveal_strlit("if_statement");
    assert("await"@.len() != "if_statement"@.len());
    reveal_strlit("elif_clause");
    assert("await"@.len() != "elif_clause"@.len());
    reveal_strlit("else_clause");
    assert("await"@.len() != "else_clause"@.len());
    reveal_strlit("while_statement");
    assert("await"@.len() != "while_statement"@.len());
    reveal_strlit("for_statement");
    assert("await"@.len() != "for_statement"@.len());
    reveal_strlit("match_statement");
    assert("await"@.len() != "match_statement"@.len());
    reveal_strlit("case_clause");
    assert("await"@.len() != "case_clause"@.len());
    reveal_strlit("return_statement");
    assert("await"@.len() != "return_statement"@.len());
    reveal_strlit("break_statement");
    assert("await"@.len() != "break_statement"@.len());
    reveal_strlit("continue_statement");
    assert("await"@.len() != "continue_statement"@.len());
    reveal_strlit("try_statement");
    assert("await"@.len() != "try_statement"@.len());
    reveal_strlit("except_clause");
    assert("await"@.len() != "except_clause"@.len());
    reveal_strlit("finally_clause");
    assert("await"@.len() != "finally_clause"@.len());
    reveal_strlit("raise_statement");
    assert("await"@.len() != "raise_statement"@.len());
    reveal_strlit("binary_operator");
    assert("await"@.len() != "binary_operator"@.len());
    reveal_strlit("comparison_operator");
    assert("await"@.len() != "comparison_operator"@.len());
    reveal_strlit("boolean_operator");
    assert("await"@.len() != "boolean_operator"@.len());
    reveal_strlit("unary_operator");
    assert("await"@.len() != "unary_operator"@.len());
    reveal_strlit("not_operator");
    assert("await"@.len() != "not_operator"@.len());
    reveal_strlit("call");
    assert("await"@.len() != "call"@.len());
    reveal_strlit("attribute");
    assert("await"@.len() != "attribute"@.len());
    reveal_strlit("subscript");
    assert("await"@.len() != "subscript"@.len());
    reveal_strlit("identifier");
    assert("await"@.len() != "identifier"@.len());
    assert(python_kind(t, n, "await"@) == KindView::Await);
}

/// In the Python table, grammar kind `yield` maps to `Yield` for every node of every tree.
proof fn lemma_python_yield_maps_to_yield(t: &SyntaxTree, n: int)
    ensures
        mapped_kind(Language::Python, t, n, "yield"@) == KindView::Yield,
{
    reveal_strlit("yield");
    reveal_strlit("module");
    assert("yield"@.len() != "module"@.len());
    reveal_strlit("class_definition");
    assert("yield"@.len() != "class_definition"@.len());
    reveal_strlit("function_definition");
    assert("yield"@.len() != "function_definition"@.len());
    reveal_strlit("lambda");
    assert("yield"@.len() != "lambda"@.len());
    reveal_strlit("parameters");
    assert("yield"@.len() != "parameters"@.len());
    reveal_strlit("default_parameter");
    assert("yield"@.len() != "default_parameter"@.len());
    reveal_strlit("typed_parameter");
    assert("yield"@.len() != "typed_parameter"@.len());
    reveal_strlit("block");
    assert("yield"@[0] != "block"@[0]);
    reveal_strlit("assignment");
    assert("yield"@.len() != "assignment"@.len());
    reveal_strlit("augmented_assignment");
    assert("yield"@.len() != "augmented_assignment"@.len());
    reveal_strlit("if_statement");
    assert("yield"@.len() != "if_statement"@.len());
    reveal_strlit("elif_clause");
    assert("yield"@.len() != "elif_clause"@.len());
    reveal_strlit("else_clause");
    assert("yield"@.len() != "else_clause"@.len());
    reveal_strlit("while_statement");
    assert("yield"@.len() != "while_statement"@.len());
    reveal_strlit("for_statement");
    assert("yield"@.len() != "for_statement"@.len());
    reveal_strlit("match_statement");
    assert("yield"@.len() != "match_statement"@.len());
    reveal_strlit("case_clause");
    assert("yield"@.len() != "case_clause"@.len());
    reveal_strlit("return_statement");
    assert("yield"@.len() != "return_statement"@.len());
    reveal_strlit("break_statement");
    assert("yield"@.len() != "break_statement"@.len());
    reveal_strlit("continue_statement");
    assert("yield"@.len() != "continue_statement"@.len());
    reveal_strlit("try_statement");
    assert("yield"@.len() != "try_statement"@.len());
    reveal_strlit("except_clause");
    assert("yield"@.len() != "except_clause"@.len());
    reveal_strlit("finally_clause");
    assert("yield"@.len() != "finally_clause"@.len());
    reveal_strlit("raise_statement");
    assert("yield"@.len() != "raise_statement"@.len());
    reveal_strlit("binary_operator");
    assert("yield"@.len() != "binary_operator"@.len());
    reveal_strlit("comparison_operator");
    assert("yield"@.len() != "comparison_operator"@.len());
    reveal_strlit("boolean_operator");
    assert("yield"@.len() != "boolean_operator"@.len());
    reveal_strlit("unary_operator");
    assert("yield"@.len() != "unary_operator"@.len());
    reveal_strlit("not_operator");
    assert("yield"@.len() != "not_operator"@.len());
    reveal_strlit("call");
    assert("yield"@.len() != "call"@.len());
    reveal_strlit("attribute");
    assert("yield"@.len() != "attribute"@.len());
    reveal_strlit("subscript");
    assert("yield"@.len() != "subscript"@.len());
    reveal_strlit("identifier");
    assert("yield"@.len() != "identifier"@.len());
    reveal_strlit("await");
    assert("yield"@[0] != "await"@[0]);
    assert(python_kind(t, n, "yield"@) == KindView::Yield);
}

/// In the JavaScript and TypeScript table, grammar kind `if_statement` maps to `If` for every node of every tree.
proof fn lemma_js_if_statement_maps_to_if(t: &SyntaxTree, n: int)
    ensures
        mapped_kind(Language::JavaScript, t, n, "if_statement"@) == KindView::If,
        mapped_kind(Language::TypeScript, t, n, "if_statement"@) == KindView::If,
{
    reveal_strlit("if_statement");
    reveal_strlit("program");
    assert("if_statement"@.len() != "program"@.len());
    reveal_strlit("class_declaration");
    assert("if_statement"@.len() != "class_declaration"@.len());
    reveal_strlit("class");
    assert("if_statement"@.len() != "class"@.len());
    reveal_strlit("function_declaration");
    assert("if_statement"@.len() != "function_declaration"@.len());
    reveal_strlit("function");
    assert("if_statement"@.len() != "function"@.len());
    reveal_strlit("generator_function_declaration");
    assert("if_statement"@.len() != "generator_function_declaration"@.len());
    reveal_strlit("method_definition");
    assert("if_statement"@.len() != "method_definition"@.len());
    reveal_strlit("arrow_function");
    assert("if_statement"@.len() != "arrow_function"@.len());
    reveal_strlit("formal_parameters");
    assert("if_statement"@.len() != "formal_parameters"@.len());
    reveal_strlit("required_parameter");
    assert("if_statement"@.len() != "required_parameter"@.len());
    reveal_strlit("optional_parameter");
    assert("if_statement"@.len() != "optional_parameter"@.len());
    reveal_strlit("statement_block");
    assert("if_statement"@.len() != "statement_block"@.len());
    reveal_strlit("variable_declaration");
    assert("if_statement"@.len() != "variable_declaration"@.len());
    reveal_strlit("lexical_declaration");
    assert("if_statement"@.len() != "lexical_declaration"@.len());
    reveal_strlit("variable_declarator");
    assert("if_statement"@.len() != "variable_declarator"@.len());
    reveal_strlit("public_field_definition");
    assert("if_statement"@.len() != "public_field_definition"@.len());
    reveal_strlit("field_definition");
    assert("if_statement"@.len() != "field_definition"@.len());
    assert(js_kind(t, n, "if_statement"@) == KindView::If);
}

/// In the JavaScript and TypeScript table, grammar kind `else_clause` maps to `Else` for every node of every tree.
proof fn lemma_js_else_clause_maps_to_else(t: &SyntaxTree, n: int)
    ensures
        mapped_kind(Language::JavaScript, t, n, "else_clause"@) == KindView::Else,
        mapped_kind(Language::TypeScript, t, n, "else_clause"@) == KindView::Else,
{
    reveal_strlit("else_clause");
    reveal_strlit("program");
    assert("else_clause"@.len() != "program"@.len());
    reveal_strlit("class_declaration");
    assert("else_clause"@.len() != "class_declaration"@.len());
    reveal_strlit("class");
    assert("else_clause"@.len() != "class"@.len());
    reveal_strlit("function_declaration");
    assert("else_clause"@.len() != "function_declaration"@.len());
    reveal_strlit("function");
    assert("else_clause"@.len() != "function"@.len());
    reveal_strlit("generator_function_declaration");
    assert("else_clause"@.len() != "generator_function_declaration"@.len());
    reveal_strlit("method_definition");
    assert("else_clause"@.len() != "method_definition"@.len());
    reveal_strlit("arrow_function");
    assert("else_clause"@.len() != "arrow_function"@.len());
    reveal_strlit("formal_parameters");
    assert("else_clause"@.len() != "formal_parameters"@.len());
    reveal_strlit("required_parameter");
    assert("else_clause"@.len() != "required_parameter"@.len());
    reveal_strlit("optional_parameter");
    assert("else_clause"@.len() != "optional_parameter"@.len());
    reveal_strlit("statement_block");
    assert("else_clause"@.len() != "statement_block"@.len());
    reveal_strlit("variable_declaration");
    assert("else_clause"@.len() != "variable_declaration"@.len());
    reveal_strlit("lexical_declaration");
    assert("else_clause"@.len() != "lexical_declaration"@.len());
    reveal_strlit("variable_declarator");
    assert("else_clause"@.len() != "variable_declarator"@.len());
    reveal_strlit("public_field_definition");
    assert("else_clause"@.len() != "public_field_definition"@.len());
    reveal_strlit("field_definition");
    assert("else_clause"@.len() != "field_definition"@.len());
    reveal_strlit("if_statement");
    assert("else_clause"@.len() != "if_statement"@.len());
    assert(js_kind(t, n, "else_clause"@) == KindView::Else);
}

/// In the JavaScript and TypeScript table, grammar kind `while_statement` maps to `While` for every node of every tree.
proof fn lemma_js_while_statement_maps_to_while(t: &SyntaxTree, n: int)
    ensures
        mapped_kind(Language::JavaScript, t, n, "while_statement"@) == KindView::While,
        mapped_kind(Language::TypeScript, t, n, "while_statement"@) == KindView::While,
{
    reveal_strlit("while_statement");
    reveal_strlit("program");
    assert("while_statement"@.len() != "program"@.len());
    reveal_strlit("class_declaration");
    assert("while_statement"@.len() != "class_declaration"@.len());
    reveal_strlit("class");
    assert("while_statement"@.len() != "class"@.len());
    reveal_strlit("function_declaration");
    assert("while_statement"@.len() != "function_declaration"@.len());
    reveal_strlit("function");
    assert("while_statement"@.len() != "function"@.len());
    reveal_strlit("generator_function_declaration");
    assert("while_statement"@.len() != "generator_function_declaration"@.len());
    reveal_strlit("method_definition");
    assert("while_statement"@.len() != "method_definition"@.len());
    reveal_strlit("arrow_function");
    assert("while_statement"@.len() != "arrow_function"@.len());
    reveal_strlit("formal_parameters");
    assert("while_statement"@.len() != "formal_parameters"@.len());
    reveal_strlit("required_parameter");
    assert("while_statement"@.len() != "required_parameter"@.len());
    reveal_strlit("optional_parameter");
    assert("while_statement"@.len() != "optional_parameter"@.len());
    reveal_strlit("statement_block");
    assert("while_statement"@[0] != "statement_block"@[0]);
    reveal_strlit("variable_declaration");
    assert("while_statement"@.len() != "variable_declaration"@.len());
    reveal_strlit("lexical_declaration");
    assert("while_statement"@.len() != "lexical_declaration"@.len());
    reveal_strlit("variable_declarator");
    assert("while_statement"@.len() != "variable_declarator"@.len());
    reveal_strlit("public_field_definition");
    assert("while_statement"@.len() != "public_field_definition"@.len());
    reveal_strlit("field_definition");
    assert("while_statement"@.len() != "field_definition"@.len());
    reveal_strlit("if_statement");
    assert("while_statement"@.len() != "if_statement"@.len());
    reveal_strlit("else_clause");
    assert("while_statement"@.len() != "else_clause"@.len());
    assert(js_kind(t, n, "while_statement"@) == KindView::While);
}

/// In the JavaScript and TypeScript table, grammar kind `for_statement` maps to `For` for every node of every tree.
proof fn lemma_js_for_statement_maps_to_for(t: &SyntaxTree, n: int)
    ensures
        mapped_kind(Language::JavaScript, t, n, "for_statement"@) == KindView::For,
        mapped_kind(Language::TypeScript, t, n, "for_statement"@) == KindView::For,
{
    reveal_strlit("for_statement");
    reveal_strlit("program");
    assert("for_statement"@.len() != "program"@.len());
    reveal_strlit("class_declaration");
    assert("for_statement"@.len() != "class_declaration"@.len());
    reveal_strlit("class");
    assert("for_statement"@.len() != "class"@.len());
    reveal_strlit("function_declaration");
    assert("for_statement"@.len() != "function_declaration"@.len());
    reveal_strlit("function");
    assert("for_statement"@.len() != "function"@.len());
    reveal_strlit("generator_function_declaration");
    assert("for_statement"@.len() != "generator_function_declaration"@.len());
    reveal_strlit("method_definition");
    assert("for_statement"@.len() != "method_definition"@.len());
    reveal_strlit("arrow_function");
    assert("for_statement"@.len() != "arrow_function"@.len());
    reveal_strlit("formal_parameters");
    assert("for_statement"@.len() != "formal_parameters"@.len());
    reveal_strlit("required_parameter");
    assert("for_statement"@.len() != "required_parameter"@.len());
    reveal_strlit("optional_parameter");
    assert("for_statement"@.len() != "optional_parameter"@.len());
    reveal_strlit("statement_block");
    assert("for_statement"@.len() != "statement_block"@.len());
    reveal_strlit("variable_declaration");
    assert("for_statement"@.len() != "variable_declaration"@.len());
    reveal_strlit("lexical_declaration");
    assert("for_statement"@.len() != "lexical_declaration"@.len());
    reveal_strlit("variable_declarator");
    assert("for_statement"@.len() != "variable_declarator"@.len());
    reveal_strlit("public_field_definition");
    assert("for_statement"@.len() != "public_field_definition"@.len());
    reveal_strlit("field_definition");
    assert("for_statement"@.len() != "field_definition"@.len());
    reveal_strlit("if_statement");
    assert("for_statement"@.len() != "if_statement"@.len());
    reveal_strlit("else_clause");
    assert("for_statement"@.len() != "else_clause"@.len());
    reveal_strlit("while_statement");
    assert("for_statement"@.len() != "while_statement"@.len());
    assert(js_kind(t, n, "for_statement"@) == KindView::For);
}

/// In the JavaScript and TypeScript table, grammar kind `for_in_statement` maps to `For` for every node of every tree.
proof fn lemma_js_for_in_statement_maps_to_for(t: &SyntaxTree, n: int)
    ensures
        mapped_kind(Language::JavaScript, t, n, "for_in_statement"@) == KindView::For,
        mapped_kind(Language::TypeScript, t, n, "for_in_statement"@) == KindView::For,
{
    reveal_strlit("for_in_statement");
    reveal_strlit("program");
    assert("for_in_statement"@.len() != "program"@.len());
    reveal_strlit("class_declaration");
    assert("for_in_statement"@.len() != "class_declaration"@.len());
    reveal_strlit("class");
    assert("for_in_statement"@.len() != "class"@.len());
    reveal_strlit("function_declaration");
    assert("for_in_statement"@.len() != "function_declaration"@.len());
    reveal_strlit("function");
    assert("for_in_statement"@.len() != "function"@.len());
    reveal_strlit("generator_function_declaration");
    assert("for_in_statement"@.len() != "generator_function_declaration"@.len());
    reveal_strlit("method_definition");
    assert("for_in_statement"@.len() != "method_definition"@.len());
    reveal_strlit("arrow_function");
    assert("for_in_statement"@.len() != "arrow_function"@.len());
    reveal_strlit("formal_parameters");
    assert("for_in_statement"@.len() != "formal_parameters"@.len());
    reveal_strlit("required_parameter");
    assert("for_in_statement"@.len() != "required_parameter"@.len());
    reveal_strlit("optional_parameter");
    assert("for_in_statement"@.len() != "optional_parameter"@.len());
    reveal_strlit("statement_block");
    assert("for_in_statement"@.len() != "statement_block"@.len());
    reveal_strlit("variable_declaration");
    assert("for_in_statement"@.len() != "variable_declaration"@.len());
    reveal_strlit("lexical_declaration");
    assert("for_in_statement"@.len() != "lexical_declaration"@.len());
    reveal_strlit("variable_declarator");
    assert("for_in_statement"@.len() != "variable_declarator"@.len());
    reveal_strlit("public_field_definition");
    assert("for_in_statement"@.len() != "public_field_definition"@.len());
    reveal_strlit("field_definition");
    assert("for_in_statement"@[1] != "field_definition"@[1]);
    reveal_strlit("if_statement");
    assert("for_in_statement"@.len() != "if_statement"@.len());
    reveal_strlit("else_clause");
    assert("for_in_statement"@.len() != "else_clause"@.len());
    reveal_strlit("while_statement");
    assert("for_in_statement"@.len() != "while_statement"@.len());
    assert(js_kind(t, n, "for_in_statement"@) == KindView::For);
}

/// In the JavaScript and TypeScript table, grammar kind `for_of_statement` maps to `For` for every node of every tree.
proof fn lemma_js_for_of_statement_maps_to_for(t: &SyntaxTree, n: int)
    ensures
        mapped_kind(Language::JavaScript, t, n, "for_of_statement"@) == KindView::For,
        mapped_kind(Language::TypeScript, t, n, "for_of_statement"@) == KindView::For,
{
    reveal_strlit("for_of_statement");
    reveal_strlit("program");
    assert("for_of_statement"@.len() != "program"@.len());
    reveal_strlit("class_declaration");
    assert("for_of_statement"@.len() != "class_declaration"@.len());
    reveal_strlit("class");
    assert("for_of_statement"@.len() != "class"@.len());
    reveal_strlit("function_declaration");
    assert("for_of_statement"@.len() != "function_declaration"@.len());
    reveal_strlit("function");
    assert("for_of_statement"@.len() != "function"@.len());
    reveal_strlit("generator_function_declaration");
    assert("for_of_statement"@.len() != "generator_function_declaration"@.len());
    reveal_strlit("method_definition");
    assert("for_of_statement"@.len() != "method_definition"@.len());
    reveal_strlit("arrow_function");
    assert("for_of_statement"@.len() != "arrow_function"@.len());
    reveal_strlit("formal_parameters");
    assert("for_of_statement"@.len() != "formal_parameters"@.len());
    reveal_strlit("required_parameter");
    assert("for_of_statement"@.len() != "required_parameter"@.len());
    reveal_strlit("optional_parameter");
    assert("for_of_statement"@.len() != "optional_parameter"@.len());
    reveal_strlit("statement_block");
    assert("for_of_statement"@.len() != "statement_block"@.len());
    reveal_strlit("variable_declaration");
    assert("for_of_statement"@.len() != "variable_declaration"@.len());
    reveal_strlit("lexical_declaration");
    assert("for_of_statement"@.len() != "lexical_declaration"@.len());
    reveal_strlit("variable_declarator");
    assert("for_of_statement"@.len() != "variable_declarator"@.len());
    reveal_strlit("public_field_definition");
    assert("for_of_statement"@.len() != "public_field_definition"@.len());
    reveal_strlit("field_definition");
    assert("for_of_statement"@[1] != "field_definition"@[1]);
    reveal_strlit("if_statement");
    assert("for_of_statement"@.len() != "if_statement"@.len());
    reveal_strlit("else_clause");
    assert("for_of_statement"@.len() != "else_clause"@.len());
    reveal_strlit("while_statement");
    assert("for_of_statement"@.len() != "while_statement"@.len());
    assert(js_kind(t, n, "for_of_statement"@) == KindView::For);
}

/// In the JavaScript and TypeScript table, grammar kind `do_statement` maps to `Loop` for every node of every tree.
proof fn lemma_js_do_statement_maps_to_loop(t: &SyntaxTree, n: int)
    ensures
        mapped_kind(Language::JavaScript, t, n, "do_statement"@) == KindView::Loop,
        mapped_kind(Language::TypeScript, t, n, "do_statement"@) == KindView::Loop,
{
    reveal_strlit("do_statement");
    reveal_strlit("program");
    assert("do_statement"@.len() != "program"@.len());
    reveal_strlit("class_declaration");
    assert("do_statement"@.len() != "class_declaration"@.len());
    reveal_strlit("class");
    assert("do_statement"@.len() != "class"@.len());
    reveal_strlit("function_declaration");
    assert("do_statement"@.len() != "function_declaration"@.len());
    reveal_strlit("function");
    assert("do_statement"@.len() != "function"@.len());
    reveal_strlit("generator_function_declaration");
    assert("do_statement"@.len() != "generator_function_declaration"@.len());
    reveal_strlit("method_definition");
    assert("do_statement"@.len() != "method_definition"@.len());
    reveal_strlit("arrow_function");
    assert("do_statement"@.len() != "arrow_function"@.len());
    reveal_strlit("formal_parameters");
    assert("do_statement"@.len() != "formal_parameters"@.len());
    reveal_strlit("required_parameter");
    assert("do_statement"@.len() != "required_parameter"@.len());
    reveal_strlit("optional_parameter");
    assert("do_statement"@.len() != "optional_parameter"@.len());
    reveal_strlit("statement_block");
    assert("do_statement"@.len() != "statement_block"@.len());
    reveal_strlit("variable_declaration");
    assert("do_statement"@.len() != "variable_declaration"@.len());
    reveal_strlit("lexical_declaration");
    assert("do_statement"@.len() != "lexical_declaration"@.len());
    reveal_strlit("variable_declarator");
    assert("do_statement"@.len() != "variable_declarator"@.len());
    reveal_strlit("public_field_definition");
    assert("do_statement"@.len() != "public_field_definition"@.len());
    reveal_strlit("field_definition");
    assert("do_statement"@.len() != "field_definition"@.len());
    reveal_strlit("if_statement");
    assert("do_statement"@[0] != "if_statement"@[0]);
    reveal_strlit("else_clause");
    assert("do_statement"@.len() != "else_clause"@.len());
    reveal_strlit("while_statement");
    assert("do_statement"@.len() != "while_statement"@.len());
    reveal_strlit("for_statement");
    assert("do_statement"@.len() != "for_statement"@.len());
    reveal_strlit("for_in_statement");
    assert("do_statement"@.len() != "for_in_statement"@.len());
    reveal_strlit("for_of_statement");
    assert("do_statement"@.len() != "for_of_statement"@.len());
    assert(js_kind(t, n, "do_statement"@) == KindView::Loop);
}

/// In the JavaScript and TypeScript table, grammar kind `switch_statement` maps to `Match` for every node of every tree.
proof fn lemma_js_switch_statement_maps_to_match(t: &SyntaxTree, n: int)
    ensures
        mapped_kind(Language::JavaScript, t, n, "switch_statement"@) == KindView::Match,
        mapped_kind(Language::TypeScript, t, n, "switch_statement"@) == KindView::Match,
{
    reveal_strlit("switch_statement");
    reveal_strlit("program");
    assert("switch_statement"@.len() != "program"@.len());
    reveal_strlit("class_declaration");
    assert("switch_statement"@.len() != "class_declaration"@.len());
    reveal_strlit("class");
    assert("switch_statement"@.len() != "class"@.len());
    reveal_strlit("function_declaration");
    assert("switch_statement"@.len() != "function_declaration"@.len());
    reveal_strlit("function");
    assert("switch_statement"@.len() != "function"@.len());
    reveal_strlit("generator_function_declaration");
    assert("switch_statement"@.len() != "generator_function_declaration"@.len());
    reveal_strlit("method_definition");
    assert("switch_statement"@.len() != "method_definition"@.len());
    reveal_strlit("arrow_function");
    assert("switch_statement"@.len() != "arrow_function"@.len());
    reveal_strlit("formal_parameters");
    assert("switch_statement"@.len() != "formal_parameters"@.len());
    reveal_strlit("required_parameter");
    assert("switch_statement"@.len() != "required_parameter"@.len());
    reveal_strlit("optional_parameter");
    assert("switch_statement"@.len() != "optional_parameter"@.len());
    reveal_strlit("statement_block");
    assert("switch_statement"@.len() != "statement_block"@.len());
    reveal_strlit("variable_declaration");
    assert("switch_statement"@.len() != "variable_declaration"@.len());
    reveal_strlit("lexical_declaration");
    assert("switch_statement"@.len() != "lexical_declaration"@.len());
    reveal_strlit("variable_declarator");
    assert("switch_statement"@.len() != "variable_declarator"@.len());
    reveal_strlit("public_field_definition");
    assert("switch_statement"@.len() != "public_field_definition"@.len());
    reveal_strlit("field_definition");
    assert("switch_statement"@[0] != "field_definition"@[0]);
    reveal_strlit("if_statement");
    assert("switch_statement"@.len() != "if_statement"@.len());
    reveal_strlit("else_clause");
    assert("switch_statement"@.len() != "else_clause"@.len());
    reveal_strlit("while_statement");
    assert("switch_statement"@.len() != "while_statement"@.len());
    reveal_strlit("for_statement");
    assert("switch_statement"@.len() != "for_statement"@.len());
    reveal_strlit("for_in_statement");
    assert("switch_statement"@[0] != "for_in_statement"@[0]);
    reveal_strlit("for_of_statement");
    assert("switch_statement"@[0] != "for_of_statement"@[0]);
    reveal_strlit("do_statement");
    assert("switch_statement"@.len() != "do_statement"@.len());
    assert(js_kind(t, n, "switch_statement"@) == KindView::Match);
}

/// In the JavaScript and TypeScript table, grammar kind `switch_case` maps to `MatchArm` for every node of every tree.
proof fn lemma_js_switch_case_maps_to_match_arm(t: &SyntaxTree, n: int)
    ensures
        mapped_kind(Language::JavaScript, t, n, "switch_case"@) == KindView::MatchArm,
        mapped_kind(Language::TypeScript, t, n, "switch_case"@) == KindView::MatchArm,
{
    reveal_strlit("switch_case");
    reveal_strlit("program");
    assert("switch_case"@.len() != "program"@.len());
    reveal_strlit("class_declaration");
    assert("switch_case"@.len() != "class_declaration"@.len());
    reveal_strlit("class");
    assert("switch_case"@.len() != "class"@.len());
    reveal_strlit("function_declaration");
    assert("switch_case"@.len() != "function_declaration"@.len());
    reveal_strlit("function");
    assert("switch_case"@.len() != "function"@.len());
    reveal_strlit("generator_function_declaration");
    assert("switch_case"@.len() != "generator_function_declaration"@.len());
    reveal_strlit("method_definition");
    assert("switch_case"@.len() != "method_definition"@.len());
    reveal_strlit("arrow_function");
    assert("switch_case"@.len() != "arrow_function"@.len());
    reveal_strlit("formal_parameters");
    assert("switch_case"@.len() != "formal_parameters"@.len());
    reveal_strlit("required_parameter");
    assert("switch_case"@.len() != "required_parameter"@.len());
    reveal_strlit("optional_parameter");
    assert("switch_case"@.len() != "optional_parameter"@.len());
    reveal_strlit("statement_block");
    assert("switch_case"@.len() != "statement_block"@.len());
    reveal_strlit("variable_declaration");
    assert("switch_case"@.len() != "variable_declaration"@.len());
    reveal_strlit("lexical_declaration");
    assert("switch_case"@.len() != "lexical_declaration"@.len());
    reveal_strlit("variable_declarator");
    assert("switch_case"@.len() != "variable_declarator"@.len());
    reveal_strlit("public_field_definition");
    assert("switch_case"@.len() != "public_field_definition"@.len());
    reveal_strlit("field_definition");
    assert("switch_case"@.len() != "field_definition"@.len());
    reveal_strlit("if_statement");
    assert("switch_case"@.len() != "if_statement"@.len());
    reveal_strlit("else_clause");
    assert("switch_case"@[0] != "else_clause"@[0]);
    reveal_strlit("while_statement");
    assert("switch_case"@.len() != "while_statement"@.len());
    reveal_strlit("for_statement");
    assert("switch_case"@.len() != "for_statement"@.len());
    reveal_strlit("for_in_statement");
    assert("switch_case"@.len() != "for_in_statement"@.len());
    reveal_strlit("for_of_statement");
    assert("switch_case"@.len() != "for_of_statement"@.len());
    reveal_strlit("do_statement");
    assert("switch_case"@.len() != "do_statement"@.len());
    reveal_strlit("switch_statement");
    assert("switch_case"@.len() != "switch_statement"@.len());
    assert(js_kind(t, n, "switch_case"@) == KindView::MatchArm);
}

/// In the JavaScript and TypeScript table, grammar kind `switch_default` maps to `MatchArm` for every node of every tree.
proof fn lemma_js_switch_default_maps_to_match_arm(t: &SyntaxTree, n: int)
    ensures
        mapped_kind(Language::JavaScript, t, n, "switch_default"@) == KindView::MatchArm,
        mapped_kind(Language::TypeScript, t, n, "switch_default"@) == KindView::MatchArm,
{
    reveal_strlit("switch_default");
    reveal_strlit("program");
    assert("switch_default"@.len() != "program"@.len());
    reveal_strlit("class_declaration");
    assert("switch_default"@.len() != "class_declaration"@.len());
    reveal_strlit("class");
    assert("switch_default"@.len() != "class"@.len());
    reveal_strlit("function_declaration");
    assert("switch_default"@.len() != "function_declaration"@.len());
    reveal_strlit("function");
    assert("switch_default"@.len() != "function"@.len());
    reveal_strlit("generator_function_declaration");
    assert("switch_default"@.len() != "generator_function_declaration"@.len());
    reveal_strlit("method_definition");
    assert("switch_default"@.len() != "method_definition"@.len());
    reveal_strlit("arrow_function");
    assert("switch_default"@[0] != "arrow_function"@[0]);
    reveal_strlit("formal_parameters");
    assert("switch_default"@.len() != "formal_parameters"@.len());
    reveal_strlit("required_parameter");
    assert("switch_default"@.len() != "required_parameter"@.len());
    reveal_strlit("optional_parameter");
    assert("switch_default"@.len() != "optional_parameter"@.len());
    reveal_strlit("statement_block");
    assert("switch_default"@.len() != "statement_block"@.len());
    reveal_strlit("variable_declaration");
    assert("switch_default"@.len() != "variable_declaration"@.len());
    reveal_strlit("lexical_declaration");
    assert("switch_default"@.len() != "lexical_declaration"@.len());
    reveal_strlit("variable_declarator");
    assert("switch_default"@.len() != "variable_declarator"@.len());
    reveal_strlit("public_field_definition");
    assert("switch_default"@.len() != "public_field_definition"@.len());
    reveal_strlit("field_definition");
    assert("switch_default"@.len() != "field_definition"@.len());
    reveal_strlit("if_statement");
    assert("switch_default"@.len() != "if_statement"@.len());
    reveal_strlit("else_clause");
    assert("switch_default"@.len() != "else_clause"@.len());
    reveal_strlit("while_statement");
    assert("switch_default"@.len() != "while_statement"@.len());
    reveal_strlit("for_statement");
    assert("switch_default"@.len() != "for_statement"@.len());
    reveal_strlit("for_in_statement");
    assert("switch_default"@.len() != "for_in_statement"@.len());
    reveal_strlit("for_of_statement");
    assert("switch_default"@.len() != "for_of_statement"@.len());
    reveal_strlit("do_statement");
    assert("switch_default"@.len() != "do_statement"@.len());
    reveal_strlit("switch_statement");
    assert("switch_default"@.len() != "switch_statement"@.len());
    assert(js_kind(t, n, "switch_default"@) == KindView::MatchArm);
}

/// In the JavaScript and TypeScript table, grammar kind `return_statement` maps to `Return` for every node of every tree.
proof fn lemma_js_return_statement_maps_to_return(t: &SyntaxTree, n: int)
    ensures
        mapped_kind(Language::JavaScript, t, n, "return_statement"@) == KindView::Return,
        mapped_kind(Language::TypeScript, t, n, "return_statement"@) == KindView::Return,
{
    reveal_strlit("return_statement");
    reveal_strlit("program");
    assert("return_statement"@.len() != "program"@.len());
    reveal_strlit("class_declaration");
    assert("return_statement"@.len() != "class_declaration"@.len());
    reveal_strlit("class");
    assert("return_statement"@.len() != "class"@.len());
    reveal_strlit("function_declaration");
    assert("return_statement"@.len() != "function_declaration"@.len());
    reveal_strlit("function");
    assert("return_statement"@.len() != "function"@.len());
    reveal_strlit("generator_function_declaration");
    assert("return_statement"@.len() != "generator_function_declaration"@.len());
    reveal_strlit("method_definition");
    assert("return_statement"@.len() != "method_definition"@.len());
    reveal_strlit("arrow_function");
    assert("return_statement"@.len() != "arrow_function"@.len());
    reveal_strlit("formal_parameters");
    assert("return_statement"@.len() != "formal_parameters"@.len());
    reveal_strlit("required_parameter");
    assert("return_statement"@.len() != "required_parameter"@.len());
    reveal_strlit("optional_parameter");
    assert("return_statement"@.len() != "optional_parameter"@.len());
    reveal_strlit("statement_block");
    assert("return_statement"@.len() != "statement_block"@.len());
    reveal_strlit("variable_declaration");
    assert("return_statement"@.len() != "variable_declaration"@.len());
    reveal_strlit("lexical_declaration");
    assert("return_statement"@.len() != "lexical_declaration"@.len());
    reveal_strlit("variable_declarator");
    assert("return_statement"@.len() != "variable_declarator"@.len());
    reveal_strlit("public_field_definition");
    assert("return_statement"@.len() != "public_field_definition"@.len());
    reveal_strlit("field_definition");
    assert("return_statement"@[0] != "field_definition"@[0]);
    reveal_strlit("if_statement");
    assert("return_statement"@.len() != "if_statement"@.len());
    reveal_strlit("else_clause");
    assert("return_statement"@.len() != "else_clause"@.len());
    reveal_strlit("while_statement");
    assert("return_statement"@.len() != "while_statement"@.len());
    reveal_strlit("for_statement");
    assert("return_statement"@.len() != "for_statement"@.len());
    reveal_strlit("for_in_statement");
    assert("return_statement"@[0] != "for_in_statement"@[0]);
    reveal_strlit("for_of_statement");
    assert("return_statement"@[0] != "for_of_statement"@[0]);
    reveal_strlit("do_statement");
    assert("return_statement"@.len() != "do_statement"@.len());
    reveal_strlit("switch_statement");
    assert("return_statement"@[0] != "switch_statement"@[0]);
    reveal_strlit("switch_case");
    assert("return_statement"@.len() != "switch_case"@.len());
    reveal_strlit("switch_default");
    assert("return_statement"@.len() != "switch_default"@.len());
    assert(js_kind(t, n, "return_statement"@) == KindView::Return);
}

/// In the JavaScript and TypeScript table, grammar kind `break_statement` maps to `Break` for every node of every tree.
proof fn lemma_js_break_statement_maps_to_break(t: &SyntaxTree, n: int)
    ensures
        mapped_kind(Language::JavaScript, t, n, "break_statement"@) == KindView::Break,
        mapped_kind(Language::TypeScript, t, n, "break_statement"@) == KindView::Break,
{
    reveal_strlit("break_statement");
    reveal_strlit("program");
    assert("break_statement"@.len() != "program"@.len());
    reveal_strlit("class_declaration");
    assert("break_statement"@.len() != "class_declaration"@.len());
    reveal_strlit("class");
    assert("break_statement"@.len() != "class"@.len());
    reveal_strlit("function_declaration");
    assert("break_statement"@.len() != "function_declaration"@.len());
    reveal_strlit("function");
    assert("break_statement"@.len() != "function"@.len());
    reveal_strlit("generator_function_declaration");
    assert("break_statement"@.len() != "generator_function_declaration"@.len());
    reveal_strlit("method_definition");
    assert("break_statement"@.len() != "method_definition"@.len());
    reveal_strlit("arrow_function");
    assert("break_statement"@.len() != "arrow_function"@.len());
    reveal_strlit("formal_parameters");
    assert("break_statement"@.len() != "formal_parameters"@.len());
    reveal_strlit("required_parameter");
    assert("break_statement"@.len() != "required_parameter"@.len());
    reveal_strlit("optional_parameter");
    assert("break_statement"@.len() != "optional_parameter"@.len());
    reveal_strlit("statement_block");
    assert("break_statement"@[0] != "statement_block"@[0]);
    reveal_strlit("variable_declaration");
    assert("break_statement"@.len() != "variable_declaration"@.len());
    reveal_strlit("lexical_declaration");
    assert("break_statement"@.len() != "lexical_declaration"@.len());
    reveal_strlit("variable_declarator");
    assert("break_statement"@.len() != "variable_declarator"@.len());
    reveal_strlit("public_field_definition");
    assert("break_statement"@.len() != "public_field_definition"@.len());
    reveal_strlit("field_definition");
    assert("break_statement"@.len() != "field_definition"@.len());
    reveal_strlit("if_statement");
    assert("break_statement"@.len() != "if_statement"@.len());
    reveal_strlit("else_clause");
    assert("break_statement"@.len() != "else_clause"@.len());
    reveal_strlit("while_statement");
    assert("break_statement"@[0] != "while_statement"@[0]);
    reveal_strlit("for_statement");
    assert("break_statement"@.len() != "for_statement"@.len());
    reveal_strlit("for_in_statement");
    assert("break_statement"@.len() != "for_in_statement"@.len());
    reveal_strlit("for_of_statement");
    assert("break_statement"@.len() != "for_of_statement"@.len());
    reveal_strlit("do_statement");
    assert("break_statement"@.len() != "do_statement"@.len());
    reveal_strlit("switch_statement");
    assert("break_statement"@.len() != "switch_statement"@.len());
    reveal_strlit("switch_case");
    assert("break_statement"@.len() != "switch_case"@.len());
    reveal_strlit("switch_default");
    assert("break_statement"@.len() != "switch_default"@.len());
    reveal_strlit("return_statement");
    assert("break_statement"@.len() != "return_statement"@.len());
    assert(js_kind(t, n, "break_statement"@) == KindView::Break);
}

/// In the JavaScript and TypeScript table, grammar kind `continue_statement` maps to `Continue` for every node of every tree.
proof fn lemma_js_continue_statement_maps_to_continue(t: &SyntaxTree, n: int)
    ensures
        mapped_kind(Language::JavaScript, t, n, "continue_statement"@) == KindView::Continue,
        mapped_kind(Language::TypeScript, t, n, "continue_statement"@) == KindView::Continue,
{
    reveal_strlit("continue_statement");
    reveal_strlit("program");
    assert("continue_statement"@.len() != "program"@.len());
    reveal_strlit("class_declaration");
    assert("continue_statement"@.len() != "class_declaration"@.len());
    reveal_strlit("class");
    assert("continue_statement"@.len() != "class"@.len());
    reveal_strlit("function_declaration");
    assert("continue_statement"@.len() != "function_declaration"@.len());
    reveal_strlit("function");
    assert("continue_statement"@.len() != "function"@.len());
    reveal_strlit("generator_function_declaration");
    assert("continue_statement"@.len() != "generator_function_declaration"@.len());
    reveal_strlit("method_definition");
    assert("continue_statement"@.len() != "method_definition"@.len());
    reveal_strlit("arrow_function");
    assert("continue_statement"@.len() != "arrow_function"@.len());
    reveal_strlit("formal_parameters");
    assert("continue_statement"@.len() != "formal_parameters"@.len());
    reveal_strlit("required_parameter");
    assert("continue_statement"@[0] != "required_parameter"@[0]);
    reveal_strlit("optional_parameter");
    assert("continue_statement"@[0] != "optional_parameter"@[0]);
    reveal_strlit("statement_block");
    assert("continue_statement"@.len() != "statement_block"@.len());
    reveal_strlit("variable_declaration");
    assert("continue_statement"@.len() != "variable_declaration"@.len());
    reveal_strlit("lexical_declaration");
    assert("continue_statement"@.len() != "lexical_declaration"@.len());
    reveal_strlit("variable_declarator");
    assert("continue_statement"@.len() != "variable_declarator"@.len());
    reveal_strlit("public_field_definition");
    assert("continue_statement"@.len() != "public_field_definition"@.len());
    reveal_strlit("field_definition");
    assert("continue_statement"@.len() != "field_definition"@.len());
    reveal_strlit("if_statement");
    assert("continue_statement"@.len() != "if_statement"@.len());
    reveal_strlit("else_clause");
    assert("continue_statement"@.len() != "else_clause"@.len());
    reveal_strlit("while_statement");
    assert("continue_statement"@.len() != "while_statement"@.len());
    reveal_strlit("for_statement");
    assert("continue_statement"@.len() != "for_statement"@.len());
    reveal_strlit("for_in_statement");
    assert("continue_statement"@.len() != "for_in_statement"@.len());
    reveal_strlit("for_of_statement");
    assert("continue_statement"@.len() != "for_of_statement"@.len());
    reveal_strlit("do_statement");
    assert("continue_statement"@.len() != "do_statement"@.len());
    reveal_strlit("switch_statement");
    assert("continue_statement"@.len() != "switch_statement"@.len());
    reveal_strlit("switch_case");
    assert("continue_statement"@.len() != "switch_case"@.len());
    reveal_strlit("switch_default");
    assert("continue_statement"@.len() != "switch_default"@.len());
    reveal_strlit("return_statement");
    assert("continue_statement"@.len() != "return_statement"@.len());
    reveal_strlit("break_statement");
    assert("continue_statement"@.len() != "break_statement"@.len());
    assert(js_kind(t, n, "continue_statement"@) == KindView::Continue);
}

/// In the JavaScript and TypeScript table, grammar kind `try_statement` maps to `Try` for every node of every tree.
proof fn lemma_js_try_statement_maps_to_try(t: &SyntaxTree, n: int)
    ensures
        mapped_kind(Language::JavaScript, t, n, "try_statement"@) == KindView::Try,
        mapped_kind(Language::TypeScript, t, n, "try_statement"@) == KindView::Try,
{
    reveal_strlit("try_statement");
    reveal_strlit("program");
    assert("try_statement"@.len() != "program"@.len());
    reveal_strlit("class_declaration");
    assert("try_statement"@.len() != "class_declaration"@.len());
    reveal_strlit("class");
    assert("try_statement"@.len() != "class"@.len());
    reveal_strlit("function_declaration");
    assert("try_statement"@.len() != "function_declaration"@.len());
    reveal_strlit("function");
    assert("try_statement"@.len() != "function"@.len());
    reveal_strlit("generator_function_declaration");
    assert("try_statement"@.len() != "generator_function_declaration"@.len());
    reveal_strlit("method_definition");
    assert("try_statement"@.len() != "method_definition"@.len());
    reveal_strlit("arrow_function");
    assert("try_statement"@.len() != "arrow_function"@.len());
    reveal_strlit("formal_parameters");
    assert("try_statement"@.len() != "formal_parameters"@.len());
    reveal_strlit("required_parameter");
    assert("try_statement"@.len() != "required_parameter"@.len());
    reveal_strlit("optional_parameter");
    assert("try_statement"@.len() != "optional_parameter"@.len());
    reveal_strlit("statement_block");
    assert("try_statement"@.len() != "statement_block"@.len());
    reveal_strlit("variable_declaration");
    assert("try_statement"@.len() != "variable_declaration"@.len());
    reveal_strlit("lexical_declaration");
    assert("try_statement"@.len() != "lexical_declaration"@.len());
    reveal_strlit("variable_declarator");
    assert("try_statement"@.len() != "variable_declarator"@.len());
    reveal_strlit("public_field_definition");
    assert("try_statement"@.len() != "public_field_definition"@.len());
    reveal_strlit("field_definition");
    assert("try_statement"@.len() != "field_definition"@.len());
    reveal_strlit("if_statement");
    assert("try_statement"@.len() != "if_statement"@.len());
    reveal_strlit("else_clause");
    assert("try_statement"@.len() != "else_clause"@.len());
    reveal_strlit("while_statement");
    assert("try_statement"@.len() != "while_statement"@.len());
    reveal_strlit("for_statement");
    assert("try_statement"@[0] != "for_statement"@[0]);
    reveal_strlit("for_in_statement");
    assert("try_statement"@.len() != "for_in_statement"@.len());
    reveal_strlit("for_of_statement");
    assert("try_statement"@.len() != "for_of_statement"@.len());
    reveal_strlit("do_statement");
    assert("try_statement"@.len() != "do_statement"@.len());
    reveal_strlit("switch_statement");
    assert("try_statement"@.len() != "switch_statement"@.len());
    reveal_strlit("switch_case");
    assert("try_statement"@.len() != "switch_case"@.len());
    reveal_strlit("switch_default");
    assert("try_statement"@.len() != "switch_default"@.len());
    reveal_strlit("return_statement");
    assert("try_statement"@.len() != "return_statement"@.len());
    reveal_strlit("break_statement");
    assert("try_statement"@.len() != "break_statement"@.len());
    reveal_strlit("continue_statement");
    assert("try_statement"@.len() != "continue_statement"@.len());
    assert(js_kind(t, n, "try_statement"@) == KindView::Try);
}

/// In the JavaScript and TypeScript table, grammar kind `catch_clause` maps to `Catch` for every node of every tree.
proof fn lemma_js_catch_clause_maps_to_catch(t: &SyntaxTree, n: int)
    ensures
        mapped_kind(Language::JavaScript, t, n, "catch_clause"@) == KindView::Catch,
        mapped_kind(Language::TypeScript, t, n, "catch_clause"@) == KindView::Catch,
{
    reveal_strlit("catch_clause");
    reveal_strlit("program");
    assert("catch_clause"@.len() != "program"@.len());
    reveal_strlit("class_declaration");
    assert("catch_clause"@.len() != "class_declaration"@.len());
    reveal_strlit("class");
    assert("catch_clause"@.len() != "class"@.len());
    reveal_strlit("function_declaration");
    assert("catch_clause"@.len() != "function_declaration"@.len());
    reveal_strlit("function");
    assert("catch_clause"@.len() != "function"@.len());
    reveal_strlit("generator_function_declaration");
    assert("catch_clause"@.len() != "generator_function_declaration"@.len());
    reveal_strlit("method_definition");
    assert("catch_clause"@.len() != "method_definition"@.len());
    reveal_strlit("arrow_function");
    assert("catch_clause"@.len() != "arrow_function"@.len());
    reveal_strlit("formal_parameters");
    assert("catch_clause"@.len() != "formal_parameters"@.len());
    reveal_strlit("required_parameter");
    assert("catch_clause"@.len() != "required_parameter"@.len());
    reveal_strlit("optional_parameter");
    assert("catch_clause"@.len() != "optional_parameter"@.len());
    reveal_strlit("statement_block");
    assert("catch_clause"@.len() != "statement_block"@.len());
    reveal_strlit("variable_declaration");
    assert("catch_clause"@.len() != "variable_declaration"@.len());
    reveal_strlit("lexical_declaration");
    assert("catch_clause"@.len() != "lexical_declaration"@.len());
    reveal_strlit("variable_declarator");
    assert("catch_clause"@.len() != "variable_declarator"@.len());
    reveal_strlit("public_field_definition");
    assert("catch_clause"@.len() != "public_field_definition"@.len());
    reveal_strlit("field_definition");
    assert("catch_clause"@.len() != "field_definition"@.len());
    reveal_strlit("if_statement");
    assert("catch_clause"@[0] != "if_statement"@[0]);
    reveal_strlit("else_clause");
    assert("catch_clause"@.len() != "else_clause"@.len());
    reveal_strlit("while_statement");
    assert("catch_clause"@.len() != "while_statement"@.len());
    reveal_strlit("for_statement");
    assert("catch_clause"@.len() != "for_statement"@.len());
    reveal_strlit("for_in_statement");
    assert("catch_clause"@.len() != "for_in_statement"@.len());
    reveal_strlit("for_of_statement");
    assert("catch_clause"@.len() != "for_of_statement"@.len());
    reveal_strlit("do_statement");
    assert("catch_clause"@[0] != "do_statement"@[0]);
    reveal_strlit("switch_statement");
    assert("catch_clause"@.len() != "switch_statement"@.len());
    reveal_strlit("switch_case");
    assert("catch_clause"@.len() != "switch_case"@.len());
    reveal_strlit("switch_default");
    assert("catch_clause"@.len() != "switch_default"@.len());
    reveal_strlit("return_statement");
    assert("catch_clause"@.len() != "return_statement"@.len());
    reveal_strlit("break_statement");
    assert("catch_clause"@.len() != "break_statement"@.len());
    reveal_strlit("continue_statement");
    assert("catch_clause"@.len() != "continue_statement"@.len());
    reveal_strlit("try_statement");
    assert("catch_clause"@.len() != "try_statement"@.len());
    assert(js_kind(t, n, "catch_clause"@) == KindView::Catch);
}

/// In the JavaScript and TypeScript table, grammar kind `finally_clause` maps to `Finally` for every node of every tree.
proof fn lemma_js_finally_clause_maps_to_finally(t: &SyntaxTree, n: int)
    ensures
        mapped_kind(Language::JavaScript, t, n, "finally_clause"@) == KindView::Finally,
        mapped_kind(Language::TypeScript, t, n, "finally_clause"@) == KindView::Finally,
{
    reveal_strlit("finally_clause");
    reveal_strlit("program");
    assert("finally_clause"@.len() != "program"@.len());
    reveal_strlit("class_declaration");
    assert("finally_clause"@.len() != "class_declaration"@.len());
    reveal_strlit("class");
    assert("finally_clause"@.len() != "class"@.len());
    reveal_strlit("function_declaration");
    assert("finally_clause"@.len() != "function_declaration"@.len());
    reveal_strlit("function");
    assert("finally_clause"@.len() != "function"@.len());
    reveal_strlit("generator_function_declaration");
    assert("finally_clause"@.len() != "generator_function_declaration"@.len());
    reveal_strlit("method_definition");
    assert("finally_clause"@.len() != "method_definition"@.len());
    reveal_strlit("arrow_function");
    assert("finally_clause"@[0] != "arrow_function"@[0]);
    reveal_strlit("formal_parameters");
    assert("finally_clause"@.len() != "formal_parameters"@.len());
    reveal_strlit("required_parameter");
    assert("finally_clause"@.len() != "required_parameter"@.len());
    reveal_strlit("optional_parameter");
    assert("finally_clause"@.len() != "optional_parameter"@.len());
    reveal_strlit("statement_block");
    assert("finally_clause"@.len() != "statement_block"@.len());
    reveal_strlit("variable_declaration");
    assert("finally_clause"@.len() != "variable_declaration"@.len());
    reveal_strlit("lexical_declaration");
    assert("finally_clause"@.len() != "lexical_declaration"@.len());
    reveal_strlit("variable_declarator");
    assert("finally_clause"@.len() != "variable_declarator"@.len());
    reveal_strlit("public_field_definition");
    assert("finally_clause"@.len() != "public_field_definition"@.len());
    reveal_strlit("field_definition");
    assert("finally_clause"@.len() != "field_definition"@.len());
    reveal_strlit("if_statement");
    assert("finally_clause"@.len() != "if_statement"@.len());
    reveal_strlit("else_clause");
    assert("finally_clause"@.len() != "else_clause"@.len());
    reveal_strlit("while_statement");
    assert("finally_clause"@.len() != "while_statement"@.len());
    reveal_strlit("for_statement");
    assert("finally_clause"@.len() != "for_statement"@.len());
    reveal_strlit("for_in_statement");
    assert("finally_clause"@.len() != "for_in_statement"@.len());
    reveal_strlit("for_of_statement");
    assert("finally_clause"@.len() != "for_of_statement"@.len());
    reveal_strlit("do_statement");
    assert("finally_clause"@.len() != "do_statement"@.len());
    reveal_strlit("switch_statement");
    assert("finally_clause"@.len() != "switch_statement"@.len());
    reveal_strlit("switch_case");
    assert("finally_clause"@.len() != "switch_case"@.len());
    reveal_strlit("switch_default");
    assert("finally_clause"@[0] != "switch_default"@[0]);
    reveal_strlit("return_statement");
    assert("finally_clause"@.len() != "return_statement"@.len());
    reveal_strlit("break_statement");
    assert("finally_clause"@.len() != "break_statement"@.len());
    reveal_strlit("continue_statement");
    assert("finally_clause"@.len() != "continue_statement"@.len());
    reveal_strlit("try_statement");
    assert("finally_clause"@.len() != "try_statement"@.len());
    reveal_strlit("catch_clause");
    assert("finally_clause"@.len() != "catch_clause"@.len());
    assert(js_kind(t, n, "finally_clause"@) == KindView::Finally);
}

/// In the JavaScript and TypeScript table, grammar kind `throw_statement` maps to `Throw` for every node of every tree.
proof fn lemma_js_throw_statement_maps_to_throw(t: &SyntaxTree, n: int)
    ensures
        mapped_kind(Language::JavaScript, t, n, "throw_statement"@) == KindView::Throw,
        mapped_kind(Language::TypeScript, t, n, "throw_statement"@) == KindView::Throw,
{
    reveal_strlit("throw_statement");
    reveal_strlit("program");
    assert("throw_statement"@.len() != "program"@.len());
    reveal_strlit("class_declaration");
    assert("throw_statement"@.len() != "class_declaration"@.len());
    reveal_strlit("class");
    assert("throw_statement"@.len() != "class"@.len());
    reveal_strlit("function_declaration");
    assert("throw_statement"@.len() != "function_declaration"@.len());
    reveal_strlit("function");
    assert("throw_statement"@.len() != "function"@.len());
    reveal_strlit("generator_function_declaration");
    assert("throw_statement"@.len() != "generator_function_declaration"@.len());
    reveal_strlit("method_definition");
    assert("throw_statement"@.len() != "method_definition"@.len());
    reveal_strlit("arrow_function");
    assert("throw_statement"@.len() != "arrow_function"@.len());
    reveal_strlit("formal_parameters");
    assert("throw_statement"@.len() != "formal_parameters"@.len());
    reveal_strlit("required_parameter");
    assert("throw_statement"@.len() != "required_parameter"@.len());
    reveal_strlit("optional_parameter");
    assert("throw_statement"@.len() != "optional_parameter"@.len());
    reveal_strlit("statement_block");
    assert("throw_statement"@[0] != "statement_block"@[0]);
    reveal_strlit("variable_declaration");
    assert("throw_statement"@.len() != "variable_declaration"@.len());
    reveal_strlit("lexical_declaration");
    assert("throw_statement"@.len() != "lexical_declaration"@.len());
    reveal_strlit("variable_declarator");
    assert("throw_statement"@.len() != "variable_declarator"@.len());
    reveal_strlit("public_field_definition");
    assert("throw_statement"@.len() != "public_field_definition"@.len());
    reveal_strlit("field_definition");
    assert("throw_statement"@.len() != "field_definition"@.len());
    reveal_strlit("if_statement");
    assert("throw_statement"@.len() != "if_statement"@.len());
    reveal_strlit("else_clause");
    assert("throw_statement"@.len() != "else_clause"@.len());
    reveal_strlit("while_statement");
    assert("throw_statement"@[0] != "while_statement"@[0]);
    reveal_strlit("for_statement");
    assert("throw_statement"@.len() != "for_statement"@.len());
    reveal_strlit("for_in_statement");
    assert("throw_statement"@.len() != "for_in_statement"@.len());
    reveal_strlit("for_of_statement");
    assert("throw_statement"@.len() != "for_of_statement"@.len());
    reveal_strlit("do_statement");
    assert("throw_statement"@.len() != "do_statement"@.len());
    reveal_strlit("switch_statement");
    assert("throw_statement"@.len() != "switch_statement"@.len());
    reveal_strlit("switch_case");
    assert("throw_statement"@.len() != "switch_case"@.len());
    reveal_strlit("switch_default");
    assert("throw_statement"@.len() != "switch_default"@.len());
    reveal_strlit("return_statement");
    assert("throw_statement"@.len() != "return_statement"@.len());
    reveal_strlit("break_statement");
    assert("throw_statement"@[0] != "break_statement"@[0]);
    reveal_strlit("continue_statement");
    assert("throw_statement"@.len() != "continue_statement"@.len());
    reveal_strlit("try_statement");
    assert("throw_statement"@.len() != "try_statement"@.len());
    reveal_strlit("catch_clause");
    assert("throw_statement"@.len() != "catch_clause"@.len());
    reveal_strlit("finally_clause");
    assert("throw_statement"@.len() != "finally_clause"@.len());
    assert(js_kind(t, n, "throw_statement"@) == KindView::Throw);
}

/// In the JavaScript and TypeScript table, grammar kind `await_expression` maps to `Await` for every node of every tree.
proof fn lemma_js_await_expression_maps_to_await(t: &SyntaxTree, n: int)
    ensures
        mapped_kind(Language::JavaScript, t, n, "await_expression"@) == KindView::Await,
        mapped_kind(Language::TypeScript, t, n, "await_expression"@) == KindView::Await,
{
    reveal_strlit("await_expression");
    reveal_strlit("program");
    assert("await_expression"@.len() != "program"@.len());
    reveal_strlit("class_declaration");
    assert("await_expression"@.len() != "class_declaration"@.len());
    reveal_strlit("class");
    assert("await_expression"@.len() != "class"@.len());
    reveal_strlit("function_declaration");
    assert("await_expression"@.len() != "function_declaration"@.len());
    reveal_strlit("function");
    assert("await_expression"@.len() != "function"@.len());
    reveal_strlit("generator_function_declaration");
    assert("await_expression"@.len() != "generator_function_declaration"@.len());
    reveal_strlit("method_definition");
    assert("await_expression"@.len() != "method_definition"@.len());
    reveal_strlit("arrow_function");
    assert("await_expression"@.len() != "arrow_function"@.len());
    reveal_strlit("formal_parameters");
    assert("await_expression"@.len() != "formal_parameters"@.len());
    reveal_strlit("required_parameter");
    assert("await_expression"@.len() != "required_parameter"@.len());
    reveal_strlit("optional_parameter");
    assert("await_expression"@.len() != "optional_parameter"@.len());
    reveal_strlit("statement_block");
    assert("await_expression"@.len() != "statement_block"@.len());
    reveal_strlit("variable_declaration");
    assert("await_expression"@.len() != "variable_declaration"@.len());
    reveal_strlit("lexical_declaration");
    assert("await_expression"@.len() != "lexical_declaration"@.len());
    reveal_strlit("variable_declarator");
    assert("await_expression"@.len() != "variable_declarator"@.len());
    reveal_strlit("public_field_definition");
    assert("await_expression"@.len() != "public_field_definition"@.len());
    reveal_strlit("field_definition");
    assert("await_expression"@[0] != "field_definition"@[0]);
    reveal_strlit("if_statement");
    assert("await_expression"@.len() != "if_statement"@.len());
    reveal_strlit("else_clause");
    assert("await_expression"@.len() != "else_clause"@.len());
    reveal_strlit("while_statement");
    assert("await_expression"@.len() != "while_statement"@.len());
    reveal_strlit("for_statement");
    assert("await_expression"@.len() != "for_statement"@.len());
    reveal_strlit("for_in_statement");
    assert("await_expression"@[0] != "for_in_statement"@[0]);
    reveal_strlit("for_of_statement");
    assert("await_expression"@[0] != "for_of_statement"@[0]);
    reveal_strlit("do_statement");
    assert("await_expression"@.len() != "do_statement"@.len());
    reveal_strlit("switch_statement");
    assert("await_expression"@[0] != "switch_statement"@[0]);
    reveal_strlit("switch_case");
    assert("await_expression"@.len() != "switch_case"@.len());
    reveal_strlit("switch_default");
    assert("await_expression"@.len() != "switch_default"@.len());
    reveal_strlit("return_statement");
    assert("await_expression"@[0] != "return_statement"@[0]);
    reveal_strlit("break_statement");
    assert("await_expression"@.len() != "break_statement"@.len());
    reveal_strlit("continue_statement");
    assert("await_expression"@.len() != "continue_statement"@.len());
    reveal_strlit("try_statement");
    assert("await_expression"@.len() != "try_statement"@.len());
    reveal_strlit("catch_clause");
    assert("await_expression"@.len() != "catch_clause"@.len());
    reveal_strlit("finally_clause");
    assert("await_expression"@.len() != "finally_clause"@.len());
    reveal_strlit("throw_statement");
    assert("await_expression"@.len() != "throw_statement"@.len());
    reveal_strlit("binary_expression");
    assert("await_expression"@.len() != "binary_expression"@.len());
    reveal_strlit("unary_expression");
    assert("await_expression"@[0] != "unary_expression"@[0]);
    reveal_strlit("update_expression");
    assert("await_expression"@.len() != "update_expression"@.len());
    reveal_strlit("assignment_expression");
    assert("await_expression"@.len() != "assignment_expression"@.len());
    reveal_strlit("augmented_assignment_expression");
    assert("await_expression"@.len() != "augmented_assignment_expression"@.len());
    reveal_strlit("call_expression");
    assert("await_expression"@.len() != "call_expression"@.len());
    reveal_strlit("new_expression");
    assert("await_expression"@.len() != "new_expression"@.len());
    reveal_strlit("member_expression");
    assert("await_expression"@.len() != "member_expression"@.len());
    reveal_strlit("subscript_expression");
    assert("await_expression"@.len() != "subscript_expression"@.len());
    reveal_strlit("identifier");
    assert("await_expression"@.len() != "identifier"@.len());
    reveal_strlit("property_identifier");
    assert("await_expression"@.len() != "property_identifier"@.len());
    reveal_strlit("shorthand_property_identifier");
    assert("await_expression"@.len() != "shorthand_property_identifier"@.len());
    assert(js_kind(t, n, "await_expression"@) == KindView::Await);
}

/// In the JavaScript and TypeScript table, grammar kind `yield_expression` maps to `Yield` for every node of every tree.
proof fn lemma_js_yield_expression_maps_to_yield(t: &SyntaxTree, n: int)
    ensures
        mapped_kind(Language::JavaScript, t, n, "yield_expression"@) == KindView::Yield,
        mapped_kind(Language::TypeScript, t, n, "yield_expression"@) == KindView::Yield,
{
    reveal_strlit("yield_expression");
    reveal_strlit("program");
    assert("yield_expression"@.len() != "program"@.len());
    reveal_strlit("class_declaration");
    assert("yield_expression"@.len() != "class_declaration"@.len());
    reveal_strlit("class");
    assert("yield_expression"@.len() != "class"@.len());
    reveal_strlit("function_declaration");
    assert("yield_expression"@.len() != "function_declaration"@.len());
    reveal_strlit("function");
    assert("yield_expression"@.len() != "function"@.len());
    reveal_strlit("generator_function_declaration");
    assert("yield_expression"@.len() != "generator_function_declaration"@.len());
    reveal_strlit("method_definition");
    assert("yield_expression"@.len() != "method_definition"@.len());
    reveal_strlit("arrow_function");
    assert("yield_expression"@.len() != "arrow_function"@.len());
    reveal_strlit("formal_parameters");
    assert("yield_expression"@.len() != "formal_parameters"@.len());
    reveal_strlit("required_parameter");
    assert("yield_expression"@.len() != "required_parameter"@.len());
    reveal_strlit("optional_parameter");
    assert("yield_expression"@.len() != "optional_parameter"@.len());
    reveal_strlit("statement_block");
    assert("yield_expression"@.len() != "statement_block"@.len());
    reveal_strlit("variable_declaration");
    assert("yield_expression"@.len() != "variable_declaration"@.len());
    reveal_strlit("lexical_declaration");
    assert("yield_expression"@.len() != "lexical_declaration"@.len());
    reveal_strlit("variable_declarator");
    assert("yield_expression"@.len() != "variable_declarator"@.len());
    reveal_strlit("public_field_definition");
    assert("yield_expression"@.len() != "public_field_definition"@.len());
    reveal_strlit("field_definition");
    assert("yield_expression"@[0] != "field_definition"@[0]);
    reveal_strlit("if_statement");
    assert("yield_expression"@.len() != "if_statement"@.len());
    reveal_strlit("else_clause");
    assert("yield_expression"@.len() != "else_clause"@.len());
    reveal_strlit("while_statement");
    assert("yield_expression"@.len() != "while_statement"@.len());
    reveal_strlit("for_statement");
    assert("yield_expression"@.len() != "for_statement"@.len());
    reveal_strlit("for_in_statement");
    assert("yield_expression"@[0] != "for_in_statement"@[0]);
    reveal_strlit("for_of_statement");
    assert("yield_expression"@[0] != "for_of_statement"@[0]);
    reveal_strlit("do_statement");
    assert("yield_expression"@.len() != "do_statement"@.len());
    reveal_strlit("switch_statement");
    assert("yield_expression"@[0] != "switch_statement"@[0]);
    reveal_strlit("switch_case");
    assert("yield_expression"@.len() != "switch_case"@.len());
    reveal_strlit("switch_default");
    assert("yield_expression"@.len() != "switch_default"@.len());
    reveal_strlit("return_statement");
    assert("yield_expression"@[0] != "return_statement"@[0]);
    reveal_strlit("break_statement");
    assert("yield_expression"@.len() != "break_statement"@.len());
    reveal_strlit("continue_statement");
    assert("yield_expression"@.len() != "continue_statement"@.len());
    reveal_strlit("try_statement");
    assert("yield_expression"@.len() != "try_statement"@.len());
    reveal_strlit("catch_clause");
    assert("yield_expression"@.len() != "catch_clause"@.len());
    reveal_strlit("finally_clause");
    assert("yield_expression"@.len() != "finally_clause"@.len());
    reveal_strlit("throw_statement");
    assert("yield_expression"@.len() != "throw_statement"@.len());
    reveal_strlit("binary_expression");
    assert("yield_expression"@.len() != "binary_expression"@.len());
    reveal_strlit("unary_expression");
    assert("yield_expression"@[0] != "unary_expression"@[0]);
    reveal_strlit("update_expression");
    assert("yield_expression"@.len() != "update_expression"@.len());
    reveal_strlit("assignment_expression");
    assert("yield_expression"@.len() != "assignment_expression"@.len());
    reveal_strlit("augmented_assignment_expression");
    assert("yield_expression"@.len() != "augmented_assignment_expression"@.len());
    reveal_strlit("call_expression");
    assert("yield_expression"@.len() != "call_expression"@.len());
    reveal_strlit("new_expression");
    assert("yield_expression"@.len() != "new_expression"@.len());
    reveal_strlit("member_expression");
    assert("yield_expression"@.len() != "member_expression"@.len());
    reveal_strlit("subscript_expression");
    assert("yield_expression"@.len() != "subscript_expression"@.len());
    reveal_strlit("identifier");
    assert("yield_expression"@.len() != "identifier"@.len());
    reveal_strlit("property_identifier");
    assert("yield_expression"@.len() != "property_identifier"@.len());
    reveal_strlit("shorthand_property_identifier");
    assert("yield_expression"@.len() != "shorthand_property_identifier"@.len());
    reveal_strlit("await_expression");
    assert("yield_expression"@[0] != "await_expression"@[0]);
    assert(js_kind(t, n, "yield_expression"@) == KindView::Yield);
}

/// In the Go table, grammar kind `if_statement` maps to `If` for every node of every tree.
proof fn lemma_go_if_statement_maps_to_if(t: &SyntaxTree, n: int)
    ensures
        mapped_kind(Language::Go, t, n, "if_statement"@) == KindView::If,
{
    reveal_strlit("if_statement");
    reveal_strlit("source_file");
    assert("if_statement"@.len() != "source_file"@.len());
    reveal_strlit("package_clause");
    assert("if_statement"@.len() != "package_clause"@.len());
    reveal_strlit("type_declaration");
    assert("if_statement"@.len() != "type_declaration"@.len());
    reveal_strlit("type_spec");
    assert("if_statement"@.len() != "type_spec"@.len());
    reveal_strlit("interface_type");
    assert("if_statement"@.len() != "interface_type"@.len());
    reveal_strlit("function_declaration");
    assert("if_statement"@.len() != "function_declaration"@.len());
    reveal_strlit("method_declaration");
    assert("if_statement"@.len() != "method_declaration"@.len());
    reveal_strlit("func_literal");
    assert("if_statement"@[0] != "func_literal"@[0]);
    reveal_strlit("parameter_declaration");
    assert("if_statement"@.len() != "parameter_declaration"@.len());
    reveal_strlit("block");
    assert("if_statement"@.len() != "block"@.len());
    reveal_strlit("short_var_declaration");
    assert("if_statement"@.len() != "short_var_declaration"@.len());
    reveal_strlit("var_declaration");
    assert("if_statement"@.len() != "var_declaration"@.len());
    reveal_strlit("const_declaration");
    assert("if_statement"@.len() != "const_declaration"@.len());
    assert(go_kind(t, n, "if_statement"@) == KindView::If);
}

/// In the Go table, grammar kind `for_statement` maps to `For` for every node of every tree.
proof fn lemma_go_for_statement_maps_to_for(t: &SyntaxTree, n: int)
    ensures
        mapped_kind(Language::Go, t, n, "for_statement"@) == KindView::For,
{
    reveal_strlit("for_statement");
    reveal_strlit("source_file");
    assert("for_statement"@.len() != "source_file"@.len());
    reveal_strlit("package_clause");
    assert("for_statement"@.len() != "package_clause"@.len());
    reveal_strlit("type_declaration");
    assert("for_statement"@.len() != "type_declaration"@.len());
    reveal_strlit("type_spec");
    assert("for_statement"@.len() != "type_spec"@.len());
    reveal_strlit("interface_type");
    assert("for_statement"@.len() != "interface_type"@.len());
    reveal_strlit("function_declaration");
    assert("for_statement"@.len() != "function_declaration"@.len());
    reveal_strlit("method_declaration");
    assert("for_statement"@.len() != "method_declaration"@.len());
    reveal_strlit("func_literal");
    assert("for_statement"@.len() != "func_literal"@.len());
    reveal_strlit("parameter_declaration");
    assert("for_statement"@.len() != "parameter_declaration"@.len());
    reveal_strlit("block");
    assert("for_statement"@.len() != "block"@.len());
    reveal_strlit("short_var_declaration");
    assert("for_statement"@.len() != "short_var_declaration"@.len());
    reveal_strlit("var_declaration");
    assert("for_statement"@.len() != "var_declaration"@.len());
    reveal_strlit("const_declaration");
    assert("for_statement"@.len() != "const_declaration"@.len());
    reveal_strlit("if_statement");
    assert("for_statement"@.len() != "if_statement"@.len());
    assert(go_kind(t, n, "for_statement"@) == KindView::For);
}

/// In the Go table, grammar kind `switch_statement` maps to `Match` for every node of every tree.
proof fn lemma_go_switch_statement_maps_to_match(t: &SyntaxTree, n: int)
    ensures
        mapped_kind(Language::Go, t, n, "switch_statement"@) == KindView::Match,
{
    reveal_strlit("switch_statement");
    reveal_strlit("source_file");
    assert("switch_statement"@.len() != "source_file"@.len());
    reveal_strlit("package_clause");
    assert("switch_statement"@.len() != "package_clause"@.len());
    reveal_strlit("type_declaration");
    assert("switch_statement"@[0] != "type_declaration"@[0]);
    reveal_strlit("type_spec");
    assert("switch_statement"@.len() != "type_spec"@.len());
    reveal_strlit("interface_type");
    assert("switch_statement"@.len() != "interface_type"@.len());
    reveal_strlit("function_declaration");
    assert("switch_statement"@.len() != "function_declaration"@.len());
    reveal_strlit("method_declaration");
    assert("switch_statement"@.len() != "method_declaration"@.len());
    reveal_strlit("func_literal");
    assert("switch_statement"@.len() != "func_literal"@.len());
    reveal_strlit("parameter_declaration");
    assert("switch_statement"@.len() != "parameter_declaration"@.len());
    reveal_strlit("block");
    assert("switch_statement"@.len() != "block"@.len());
    reveal_strlit("short_var_declaration");
    assert("switch_statement"@.len() != "short_var_declaration"@.len());
    reveal_strlit("var_declaration");
    assert("switch_statement"@.len() != "var_declaration"@.len());
    reveal_strlit("const_declaration");
    assert("switch_statement"@.len() != "const_declaration"@.len());
    reveal_strlit("if_statement");
    assert("switch_statement"@.len() != "if_statement"@.len());
    reveal_strlit("for_statement");
    assert("switch_statement"@.len() != "for_statement"@.len());
    assert(go_kind(t, n, "switch_statement"@) == KindView::Match);
}

/// In the Go table, grammar kind `type_switch_statement` maps to `Match` for every node of every tree.
proof fn lemma_go_type_switch_statement_maps_to_match(t: &SyntaxTree, n: int)
    ensures
        mapped_kind(Language::Go, t, n, "type_switch_statement"@) == KindView::Match,
{
    reveal_strlit("type_switch_statement");
    reveal_strlit("source_file");
    assert("type_switch_statement"@.len() != "source_file"@.len());
    reveal_strlit("package_clause");
    assert("type_switch_statement"@.len() != "package_clause"@.len());
    reveal_strlit("type_declaration");
    assert("type_switch_statement"@.len() != "type_declaration"@.len());
    reveal_strlit("type_spec");
    assert("type_switch_statement"@.len() != "type_spec"@.len());
    reveal_strlit("interface_type");
    assert("type_switch_statement"@.len() != "interface_type"@.len());
    reveal_strlit("function_declaration");
    assert("type_switch_statement"@.len() != "function_declaration"@.len());
    reveal_strlit("method_declaration");
    assert("type_switch_statement"@.len() != "method_declaration"@.len());
    reveal_strlit("func_literal");
    assert("type_switch_statement"@.len() != "func_literal"@.len());
    reveal_strlit("parameter_declaration");
    assert("type_switch_statement"@[0] != "parameter_declaration"@[0]);
    reveal_strlit("block");
    assert("type_switch_statement"@.len() != "block"@.len());
    reveal_strlit("short_var_declaration");
    assert("type_switch_statement"@[0] != "short_var_declaration"@[0]);
    reveal_strlit("var_declaration");
    assert("type_switch_statement"@.len() != "var_declaration"@.len());
    reveal_strlit("const_declaration");
    assert("type_switch_statement"@.len() != "const_declaration"@.len());
    reveal_strlit("if_statement");
    assert("type_switch_statement"@.len() != "if_statement"@.len());
    reveal_strlit("for_statement");
    assert("type_switch_statement"@.len() != "for_statement"@.len());
    assert(go_kind(t, n, "type_switch_statement"@) == KindView::Match);
}

/// In the Go table, grammar kind `expression_case` maps to `MatchArm` for every node of every tree.
proof fn lemma_go_expression_case_maps_to_match_arm(t: &SyntaxTree, n: int)
    ensures
        mapped_kind(Language::Go, t, n, "expression_case"@) == KindView::MatchArm,
{
    reveal_strlit("expression_case");
    reveal_strlit("source_file");
    assert("expression_case"@.len() != "source_file"@.len());
    reveal_strlit("package_clause");
    assert("expression_case"@.len() != "package_clause"@.len());
    reveal_strlit("type_declaration");
    assert("expression_case"@.len() != "type_declaration"@.len());
    reveal_strlit("type_spec");
    assert("expression_case"@.len() != "type_spec"@.len());
    reveal_strlit("interface_type");
    assert("expression_case"@.len() != "interface_type"@.len());
    reveal_strlit("function_declaration");
    assert("expression_case"@.len() != "function_declaration"@.len());
    reveal_strlit("method_declaration");
    assert("expression_case"@.len() != "method_declaration"@.len());
    reveal_strlit("func_literal");
    assert("expression_case"@.len() != "func_literal"@.len());
    reveal_strlit("parameter_declaration");
    assert("expression_case"@.len() != "parameter_declaration"@.len());
    reveal_strlit("block");
    assert("expression_case"@.len() != "block"@.len());
    reveal_strlit("short_var_declaration");
    assert("expression_case"@.len() != "short_var_declaration"@.len());
    reveal_strlit("var_declaration");
    assert("expression_case"@[0] != "var_declaration"@[0]);
    reveal_strlit("const_declaration");
    assert("expression_case"@.len() != "const_declaration"@.len());
    reveal_strlit("if_statement");
    assert("expression_case"@.len() != "if_statement"@.len());
    reveal_strlit("for_statement");
    assert("expression_case"@.len() != "for_statement"@.len());
    reveal_strlit("switch_statement");
    assert("expression_case"@.len() != "switch_statement"@.len());
    reveal_strlit("type_switch_statement");
    assert("expression_case"@.len() != "type_switch_statement"@.len());
    assert(go_kind(t, n, "expression_case"@) == KindView::MatchArm);
}

/// In the Go table, grammar kind `type_case` maps to `MatchArm` for every node of every tree.
proof fn lemma_go_type_case_maps_to_match_arm(t: &SyntaxTree, n: int)
    ensures
        mapped_kind(Language::Go, t, n, "type_case"@) == KindView::MatchArm,
{
    reveal_strlit("type_case");
    reveal_strlit("source_file");
    assert("type_case"@.len() != "source_file"@.len());
    reveal_strlit("package_clause");
    assert("type_case"@.len() != "package_clause"@.len());
    reveal_strlit("type_declaration");
    assert("type_case"@.len() != "type_declaration"@.len());
    reveal_strlit("type_spec");
    assert("type_case"@[5] != "type_spec"@[5]);
    reveal_strlit("interface_type");
    assert("type_case"@.len() != "interface_type"@.len());
    reveal_strlit("function_declaration");
    assert("type_case"@.len() != "function_declaration"@.len());
    reveal_strlit("method_declaration");
    assert("type_case"@.len() != "method_declaration"@.len());
    reveal_strlit("func_literal");
    assert("type_case"@.len() != "func_literal"@.len());
    reveal_strlit("parameter_declaration");
    assert("type_case"@.len() != "parameter_declaration"@.len());
    reveal_strlit("block");
    assert("type_case"@.len() != "block"@.len());
    reveal_strlit("short_var_declaration");
    assert("type_case"@.len() != "short_var_declaration"@.len());
    reveal_strlit("var_declaration");
    assert("type_case"@.len() != "var_declaration"@.len());
    reveal_strlit("const_declaration");
    assert("type_case"@.len() != "const_declaration"@.len());
    reveal_strlit("if_statement");
    assert("type_case"@.len() != "if_statement"@.len());
    reveal_strlit("for_statement");
    assert("type_case"@.len() != "for_statement"@.len());
    reveal_strlit("switch_statement");
    assert("type_case"@.len() != "switch_statement"@.len());
    reveal_strlit("type_switch_statement");
    assert("type_case"@.len() != "type_switch_statement"@.len());
    assert(go_kind(t, n, "type_case"@) == KindView::MatchArm);
}

/// In the Go table, grammar kind `default_case` maps to `MatchArm` for every node of every tree.
proof fn lemma_go_default_case_maps_to_match_arm(t: &SyntaxTree, n: int)
    ensures
        mapped_kind(Language::Go, t, n, "default_case"@) == KindView::MatchArm,
{
    reveal_strlit("default_case");
    reveal_strlit("source_file");
    assert("default_case"@.len() != "source_file"@.len());
    reveal_strlit("package_clause");
    assert("default_case"@.len() != "package_clause"@.len());
    reveal_strlit("type_declaration");
    assert("default_case"@.len() != "type_declaration"@.len());
    reveal_strlit("type_spec");
    assert("default_case"@.len() != "type_spec"@.len());
    reveal_strlit("interface_type");
    assert("default_case"@.len() != "interface_type"@.len());
    reveal_strlit("function_declaration");
    assert("default_case"@.len() != "function_declaration"@.len());
    reveal_strlit("method_declaration");
    assert("default_case"@.len() != "method_declaration"@.len());
    reveal_strlit("func_literal");
    assert("default_case"@[0] != "func_literal"@[0]);
    reveal_strlit("parameter_declaration");
    assert("default_case"@.len() != "parameter_declaration"@.len());
    reveal_strlit("block");
    assert("default_case"@.len() != "block"@.len());
    reveal_strlit("short_var_declaration");
    assert("default_case"@.len() != "short_var_declaration"@.len());
    reveal_strlit("var_declaration");
    assert("default_case"@.len() != "var_declaration"@.len());
    reveal_strlit("const_declaration");
    assert("default_case"@.len() != "const_declaration"@.len());
    reveal_strlit("if_statement");
    assert("default_case"@[0] != "if_statement"@[0]);
    reveal_strlit("for_statement");
    assert("default_case"@.len() != "for_statement"@.len());
    reveal_strlit("switch_statement");
    assert("default_case"@.len() != "switch_statement"@.len());
    reveal_strlit("type_switch_statement");
    assert("default_case"@.len() != "type_switch_statement"@.len());
    assert(go_kind(t, n, "default_case"@) == KindView::MatchArm);
}

/// In the Go table, grammar kind `return_statement` maps to `Return` for every node of every tree.
proof fn lemma_go_return_statement_maps_to_return(t: &SyntaxTree, n: int)
    ensures
        mapped_kind(Language::Go, t, n, "return_statement"@) == KindView::Return,
{
    reveal_strlit("return_statement");
    reveal_strlit("source_file");
    assert("return_statement"@.len() != "source_file"@.len());
    reveal_strlit("package_clause");
    assert("return_statement"@.len() != "package_clause"@.len());
    reveal_strlit("type_declaration");
    assert("return_statement"@[0] != "type_declaration"@[0]);
    reveal_strlit("type_spec");
    assert("return_statement"@.len() != "type_spec"@.len());
    reveal_strlit("interface_type");
    assert("return_statement"@.len() != "interface_type"@.len());
    reveal_strlit("function_declaration");
    assert("return_statement"@.len() != "function_declaration"@.len());
    reveal_strlit("method_declaration");
    assert("return_statement"@.len() != "method_declaration"@.len());
    reveal_strlit("func_literal");
    assert("return_statement"@.len() != "func_literal"@.len());
    reveal_strlit("parameter_declaration");
    assert("return_statement"@.len() != "parameter_declaration"@.len());
    reveal_strlit("block");
    assert("return_statement"@.len() != "block"@.len());
    reveal_strlit("short_var_declaration");
    assert("return_statement"@.len() != "short_var_declaration"@.len());
    reveal_strlit("var_declaration");
    assert("return_statement"@.len() != "var_declaration"@.len());
    reveal_strlit("const_declaration");
    assert("return_statement"@.len() != "const_declaration"@.len());
    reveal_strlit("if_statement");
    assert("return_statement"@.len() != "if_statement"@.len());
    reveal_strlit("for_statement");
    assert("return_statement"@.len() != "for_statement"@.len());
    reveal_strlit("switch_statement");
    assert("return_statement"@[0] != "switch_statement"@[0]);
    reveal_strlit("type_switch_statement");
    assert("return_statement"@.len() != "type_switch_statement"@.len());
    reveal_strlit("expression_case");
    assert("return_statement"@.len() != "expression_case"@.len());
    reveal_strlit("type_case");
    assert("return_statement"@.len() != "type_case"@.len());
    reveal_strlit("default_case");
    assert("return_statement"@.len() != "default_case"@.len());
    assert(go_kind(t, n, "return_statement"@) == KindView::Return);
}

/// In the Go table, grammar kind `break_statement` maps to `Break` for every node of every tree.
proof fn lemma_go_break_statement_maps_to_break(t: &SyntaxTree, n: int)
    ensures
        mapped_kind(Language::Go, t, n, "break_statement"@) == KindView::Break,
{
    reveal_strlit("break_statement");
    reveal_strlit("source_file");
    assert("break_statement"@.len() != "source_file"@.len());
    reveal_strlit("package_clause");
    assert("break_statement"@.len() != "package_clause"@.len());
    reveal_strlit("type_declaration");
    assert("break_statement"@.len() != "type_declaration"@.len());
    reveal_strlit("type_spec");
    assert("break_statement"@.len() != "type_spec"@.len());
    reveal_strlit("interface_type");
    assert("break_statement"@.len() != "interface_type"@.len());
    reveal_strlit("function_declaration");
    assert("break_statement"@.len() != "function_declaration"@.len());
    reveal_strlit("method_declaration");
    assert("break_statement"@.len() != "method_declaration"@.len());
    reveal_strlit("func_literal");
    assert("break_statement"@.len() != "func_literal"@.len());
    reveal_strlit("parameter_declaration");
    assert("break_statement"@.len() != "parameter_declaration"@.len());
    reveal_strlit("block");
    assert("break_statement"@.len() != "block"@.len());
    reveal_strlit("short_var_declaration");
    assert("break_statement"@.len() != "short_var_declaration"@.len());
    reveal_strlit("var_declaration");
    assert("break_statement"@[0] != "var_declaration"@[0]);
    reveal_strlit("const_declaration");
    assert("break_statement"@.len() != "const_declaration"@.len());
    reveal_strlit("if_statement");
    assert("break_statement"@.len() != "if_statement"@.len());
    reveal_strlit("for_statement");
    assert("break_statement"@.len() != "for_statement"@.len());
    reveal_strlit("switch_statement");
    assert("break_statement"@.len() != "switch_statement"@.len());
    reveal_strlit("type_switch_statement");
    assert("break_statement"@.len() != "type_switch_statement"@.len());
    reveal_strlit("expression_case");
    assert("break_statement"@[0] != "expression_case"@[0]);
    reveal_strlit("type_case");
    assert("break_statement"@.len() != "type_case"@.len());
    reveal_strlit("default_case");
    assert("break_statement"@.len() != "default_case"@.len());
    reveal_strlit("return_statement");
    assert("break_statement"@.len() != "return_statement"@.len());
    assert(go_kind(t, n, "break_statement"@) == KindView::Break);
}

/// In the Go table, grammar kind `continue_statement` maps to `Continue` for every node of every tree.
proof fn lemma_go_continue_statement_maps_to_continue(t: &SyntaxTree, n: int)
    ensures
        mapped_kind(Language::Go, t, n, "continue_statement"@) == KindView::Continue,
{
    reveal_strlit("continue_statement");
    reveal_strlit("source_file");
    assert("continue_statement"@.len() != "source_file"@.len());
    reveal_strlit("package_clause");
    assert("continue_statement"@.len() != "package_clause"@.len());
    reveal_strlit("type_declaration");
    assert("continue_statement"@.len() != "type_declaration"@.len());
    reveal_strlit("type_spec");
    assert("continue_statement"@.len() != "type_spec"@.len());
    reveal_strlit("interface_type");
    assert("continue_statement"@.len() != "interface_type"@.len());
    reveal_strlit("function_declaration");
    assert("continue_statement"@.len() != "function_declaration"@.len());
    reveal_strlit("method_declaration");
    assert("continue_statement"@[0] != "method_declaration"@[0]);
    reveal_strlit("func_literal");
    assert("continue_statement"@.len() != "func_literal"@.len());
    reveal_strlit("parameter_declaration");
    assert("continue_statement"@.len() != "parameter_declaration"@.len());
    reveal_strlit("block");
    assert("continue_statement"@.len() != "block"@.len());
    reveal_strlit("short_var_declaration");
    assert("continue_statement"@.len() != "short_var_declaration"@.len());
    reveal_strlit("var_declaration");
    assert("continue_statement"@.len() != "var_declaration"@.len());
    reveal_strlit("const_declaration");
    assert("continue_statement"@.len() != "const_declaration"@.len());
    reveal_strlit("if_statement");
    assert("continue_statement"@.len() != "if_statement"@.len());
    reveal_strlit("for_statement");
    assert("continue_statement"@.len() != "for_statement"@.len());
    reveal_strlit("switch_statement");
    assert("continue_statement"@.len() != "switch_statement"@.len());
    reveal_strlit("type_switch_statement");
    assert("continue_statement"@.len() != "type_switch_statement"@.len());
    reveal_strlit("expression_case");
    assert("continue_statement"@.len() != "expression_case"@.len());
    reveal_strlit("type_case");
    assert("continue_statement"@.len() != "type_case"@.len());
    reveal_strlit("default_case");
    assert("continue_statement"@.len() != "default_case"@.len());
    reveal_strlit("return_statement");
    assert("continue_statement"@.len() != "return_statement"@.len());
    reveal_strlit("break_statement");
    assert("continue_statement"@.len() != "break_statement"@.len());
    assert(go_kind(t, n, "continue_statement"@) == KindView::Continue);
}

/// In the Go table, grammar kind `go_statement` maps to `Await` for every node of every tree.
proof fn lemma_go_go_statement_maps_to_await(t: &SyntaxTree, n: int)
    ensures
        mapped_kind(Language::Go, t, n, "go_statement"@) == KindView::Await,
{
    reveal_strlit("go_statement");
    reveal_strlit("source_file");
    assert("go_statement"@.len() != "source_file"@.len());
    reveal_strlit("package_clause");
    assert("go_statement"@.len() != "package_clause"@.len());
    reveal_strlit("type_declaration");
    assert("go_statement"@.len() != "type_declaration"@.len());
    reveal_strlit("type_spec");
    assert("go_statement"@.len() != "type_spec"@.len());
    reveal_strlit("interface_type");
    assert("go_statement"@.len() != "interface_type"@.len());
    reveal_strlit("function_declaration");
    assert("go_statement"@.len() != "function_declaration"@.len());
    reveal_strlit("method_declaration");
    assert("go_statement"@.len() != "method_declaration"@.len());
    reveal_strlit("func_literal");
    assert("go_statement"@[0] != "func_literal"@[0]);
    reveal_strlit("parameter_declaration");
    assert("go_statement"@.len() != "parameter_declaration"@.len());
    reveal_strlit("block");
    assert("go_statement"@.len() != "block"@.len());
    reveal_strlit("short_var_declaration");
    assert("go_statement"@.len() != "short_var_declaration"@.len());
    reveal_strlit("var_declaration");
    assert("go_statement"@.len() != "var_declaration"@.len());
    reveal_strlit("const_declaration");
    assert("go_statement"@.len() != "const_declaration"@.len());
    reveal_strlit("if_statement");
    assert("go_statement"@[0] != "if_statement"@[0]);
    reveal_strlit("for_statement");
    assert("go_statement"@.len() != "for_statement"@.len());
    reveal_strlit("switch_statement");
    assert("go_statement"@.len() != "switch_statement"@.len());
    reveal_strlit("type_switch_statement");
    assert("go_statement"@.len() != "type_switch_statement"@.len());
    reveal_strlit("expression_case");
    assert("go_statement"@.len() != "expression_case"@.len());
    reveal_strlit("type_case");
    assert("go_statement"@.len() != "type_case"@.len());
    reveal_strlit("default_case");
    assert("go_statement"@[0] != "default_case"@[0]);
    reveal_strlit("return_statement");
    assert("go_statement"@.len() != "return_statement"@.len());
    reveal_strlit("break_statement");
    assert("go_statement"@.len() != "break_statement"@.len());
    reveal_strlit("continue_statement");
    assert("go_statement"@.len() != "continue_statement"@.len());
    assert(go_kind(t, n, "go_statement"@) == KindView::Await);
}

/// In the Go table, grammar kind `defer_statement` maps to `Finally` for every node of every tree.
proof fn lemma_go_defer_statement_maps_to_finally(t: &SyntaxTree, n: int)
    ensures
        mapped_kind(Language::Go, t, n, "defer_statement"@) == KindView::Finally,
{
    reveal_strlit("defer_statement");
    reveal_strlit("source_file");
    assert("defer_statement"@.len() != "source_file"@.len());
    reveal_strlit("package_clause");
    assert("defer_statement"@.len() != "package_clause"@.len());
    reveal_strlit("type_declaration");
    assert("defer_statement"@.len() != "type_declaration"@.len());
    reveal_strlit("type_spec");
    assert("defer_statement"@.len() != "type_spec"@.len());
    reveal_strlit("interface_type");
    assert("defer_statement"@.len() != "interface_type"@.len());
    reveal_strlit("function_declaration");
    assert("defer_statement"@.len() != "function_declaration"@.len());
    reveal_strlit("method_declaration");
    assert("defer_statement"@.len() != "method_declaration"@.len());
    reveal_strlit("func_literal");
    assert("defer_statement"@.len() != "func_literal"@.len());
    reveal_strlit("parameter_declaration");
    assert("defer_statement"@.len() != "parameter_declaration"@.len());
    reveal_strlit("block");
    assert("defer_statement"@.len() != "block"@.len());
    reveal_strlit("short_var_declaration");
    assert("defer_statement"@.len() != "short_var_declaration"@.len());
    reveal_strlit("var_declaration");
    assert("defer_statement"@[0] != "var_declaration"@[0]);
    reveal_strlit("const_declaration");
    assert("defer_statement"@.len() != "const_declaration"@.len());
    reveal_strlit("if_statement");
    assert("defer_statement"@.len() != "if_statement"@.len());
    reveal_strlit("for_statement");
    assert("defer_statement"@.len() != "for_statement"@.len());
    reveal_strlit("switch_statement");
    assert("defer_statement"@.len() != "switch_statement"@.len());
    reveal_strlit("type_switch_statement");
    assert("defer_statement"@.len() != "type_switch_statement"@.len());
    reveal_strlit("expression_case");
    assert("defer_statement"@[0] != "expression_case"@[0]);
    reveal_strlit("type_case");
    assert("defer_statement"@.len() != "type_case"@.len());
    reveal_strlit("default_case");
    assert("defer_statement"@.len() != "default_case"@.len());
    reveal_strlit("return_statement");
    assert("defer_statement"@.len() != "return_statement"@.len());
    reveal_strlit("break_statement");
    assert("defer_statement"@[0] != "break_statement"@[0]);
    reveal_strlit("continue_statement");
    assert("defer_statement"@.len() != "continue_statement"@.len());
    reveal_strlit("go_statement");
    assert("defer_statement"@.len() != "go_statement"@.len());
    assert(go_kind(t, n, "defer_statement"@) == KindView::Finally);
}

/// In the Java table, grammar kind `if_statement` maps to `If` for every node of every tree.
proof fn lemma_java_if_statement_maps_to_if(t: &SyntaxTree, n: int)
    ensures
        mapped_kind(Language::Java, t, n, "if_statement"@) == KindView::If,
{
    reveal_strlit("if_statement");
    reveal_strlit("program");
    assert("if_statement"@.len() != "program"@.len());
    reveal_strlit("package_declaration");
    assert("if_statement"@.len() != "package_declaration"@.len());
    reveal_strlit("class_declaration");
    assert("if_statement"@.len() != "class_declaration"@.len());
    reveal_strlit("interface_declaration");
    assert("if_statement"@.len() != "interface_declaration"@.len());
    reveal_strlit("enum_declaration");
    assert("if_statement"@.len() != "enum_declaration"@.len());
    reveal_strlit("method_declaration");
    assert("if_statement"@.len() != "method_declaration"@.len());
    reveal_strlit("constructor_declaration");
    assert("if_statement"@.len() != "constructor_declaration"@.len());
    reveal_strlit("lambda_expression");
    assert("if_statement"@.len() != "lambda_expression"@.len());
    reveal_strlit("formal_parameter");
    assert("if_statement"@.len() != "formal_parameter"@.len());
    reveal_strlit("spread_parameter");
    assert("if_statement"@.len() != "spread_parameter"@.len());
    reveal_strlit("block");
    assert("if_statement"@.len() != "block"@.len());
    reveal_strlit("local_variable_declaration");
    assert("if_statement"@.len() != "local_variable_declaration"@.len());
    reveal_strlit("variable_declarator");
    assert("if_statement"@.len() != "variable_declarator"@.len());
    reveal_strlit("field_declaration");
    assert("if_statement"@.len() != "field_declaration"@.len());
    assert(java_kind(t, n, "if_statement"@) == KindView::If);
}

/// In the Java table, grammar kind `while_statement` maps to `While` for every node of every tree.
proof fn lemma_java_while_statement_maps_to_while(t: &SyntaxTree, n: int)
    ensures
        mapped_kind(Language::Java, t, n, "while_statement"@) == KindView::While,
{
    reveal_strlit("while_statement");
    reveal_strlit("program");
    assert("while_statement"@.len() != "program"@.len());
    reveal_strlit("package_declaration");
    assert("while_statement"@.len() != "package_declaration"@.len());
    reveal_strlit("class_declaration");
    assert("while_statement"@.len() != "class_declaration"@.len());
    reveal_strlit("interface_declaration");
    assert("while_statement"@.len() != "interface_declaration"@.len());
    reveal_strlit("enum_declaration");
    assert("while_statement"@.len() != "enum_declaration"@.len());
    reveal_strlit("method_declaration");
    assert("while_statement"@.len() != "method_declaration"@.len());
    reveal_strlit("constructor_declaration");
    assert("while_statement"@.len() != "constructor_declaration"@.len());
    reveal_strlit("lambda_expression");
    assert("while_statement"@.len() != "lambda_expression"@.len());
    reveal_strlit("formal_parameter");
    assert("while_statement"@.len() != "formal_parameter"@.len());
    reveal_strlit("spread_parameter");
    assert("while_statement"@.len() != "spread_parameter"@.len());
    reveal_strlit("block");
    assert("while_statement"@.len() != "block"@.len());
    reveal_strlit("local_variable_declaration");
    assert("while_statement"@.len() != "local_variable_declaration"@.len());
    reveal_strlit("variable_declarator");
    assert("while_statement"@.len() != "variable_declarator"@.len());
    reveal_strlit("field_declaration");
    assert("while_statement"@.len() != "field_declaration"@.len());
    reveal_strlit("if_statement");
    assert("while_statement"@.len() != "if_statement"@.len());
    assert(java_kind(t, n, "while_statement"@) == KindView::While);
}

/// In the Java table, grammar kind `for_statement` maps to `For` for every node of every tree.
proof fn lemma_java_for_statement_maps_to_for(t: &SyntaxTree, n: int)
    ensures
        mapped_kind(Language::Java, t, n, "for_statement"@) == KindView::For,
{
    reveal_strlit("for_statement");
    reveal_strlit("program");
    assert("for_statement"@.len() != "program"@.len());
    reveal_strlit("package_declaration");
    assert("for_statement"@.len() != "package_declaration"@.len());
    reveal_strlit("class_declaration");
    assert("for_statement"@.len() != "class_declaration"@.len());
    reveal_strlit("interface_declaration");
    assert("for_statement"@.len() != "interface_declaration"@.len());
    reveal_strlit("enum_declaration");
    assert("for_statement"@.len() != "enum_declaration"@.len());
    reveal_strlit("method_declaration");
    assert("for_statement"@.len() != "method_declaration"@.len());
    reveal_strlit("constructor_declaration");
    assert("for_statement"@.len() != "constructor_declaration"@.len());
    reveal_strlit("lambda_expression");
    assert("for_statement"@.len() != "lambda_expression"@.len());
    reveal_strlit("formal_parameter");
    assert("for_statement"@.len() != "formal_parameter"@.len());
    reveal_strlit("spread_parameter");
    assert("for_statement"@.len() != "spread_parameter"@.len());
    reveal_strlit("block");
    assert("for_statement"@.len() != "block"@.len());
    reveal_strlit("local_variable_declaration");
    assert("for_statement"@.len() != "local_variable_declaration"@.len());
    reveal_strlit("variable_declarator");
    assert("for_statement"@.len() != "variable_declarator"@.len());
    reveal_strlit("field_declaration");
    assert("for_statement"@.len() != "field_declaration"@.len());
    reveal_strlit("if_statement");
    assert("for_statement"@.len() != "if_statement"@.len());
    reveal_strlit("while_statement");
    assert("for_statement"@.len() != "while_statement"@.len());
    assert(java_kind(t, n, "for_statement"@) == KindView::For);
}

/// In the Java table, grammar kind `enhanced_for_statement` maps to `For` for every node of every tree.
proof fn lemma_java_enhanced_for_statement_maps_to_for(t: &SyntaxTree, n: int)
    ensures
        mapped_kind(Language::Java, t, n, "enhanced_for_statement"@) == KindView::For,
{
    reveal_strlit("enhanced_for_statement");
    reveal_strlit("program");
    assert("enhanced_for_statement"@.len() != "program"@.len());
    reveal_strlit("package_declaration");
    assert("enhanced_for_statement"@.len() != "package_declaration"@.len());
    reveal_strlit("class_declaration");
    assert("enhanced_for_statement"@.len() != "class_declaration"@.len());
    reveal_strlit("interface_declaration");
    assert("enhanced_for_statement"@.len() != "interface_declaration"@.len());
    reveal_strlit("enum_declaration");
    assert("enhanced_for_statement"@.len() != "enum_declaration"@.len());
    reveal_strlit("method_declaration");
    assert("enhanced_for_statement"@.len() != "method_declaration"@.len());
    reveal_strlit("constructor_declaration");
    assert("enhanced_for_statement"@.len() != "constructor_declaration"@.len());
    reveal_strlit("lambda_expression");
    assert("enhanced_for_statement"@.len() != "lambda_expression"@.len());
    reveal_strlit("formal_parameter");
    assert("enhanced_for_statement"@.len() != "formal_parameter"@.len());
    reveal_strlit("spread_parameter");
    assert("enhanced_for_statement"@.len() != "spread_parameter"@.len());
    reveal_strlit("block");
    assert("enhanced_for_statement"@.len() != "block"@.len());
    reveal_strlit("local_variable_declaration");
    assert("enhanced_for_statement"@.len() != "local_variable_declaration"@.len());
    reveal_strlit("variable_declarator");
    assert("enhanced_for_statement"@.len() != "variable_declarator"@.len());
    reveal_strlit("field_declaration");
    assert("enhanced_for_statement"@.len() != "field_declaration"@.len());
    reveal_strlit("if_statement");
    assert("enhanced_for_statement"@.len() != "if_statement"@.len());
    reveal_strlit("while_statement");
    assert("enhanced_for_statement"@.len() != "while_statement"@.len());
    assert(java_kind(t, n, "enhanced_for_statement"@) == KindView::For);
}

/// In the Java table, grammar kind `do_statement` maps to `Loop` for every node of every tree.
proof fn lemma_java_do_statement_maps_to_loop(t: &SyntaxTree, n: int)
    ensures
        mapped_kind(Language::Java, t, n, "do_statement"@) == KindView::Loop,
{
    reveal_strlit("do_statement");
    reveal_strlit("program");
    assert("do_statement"@.len() != "program"@.len());
    reveal_strlit("package_declaration");
    assert("do_statement"@.len() != "package_declaration"@.len());
    reveal_strlit("class_declaration");
    assert("do_statement"@.len() != "class_declaration"@.len());
    reveal_strlit("interface_declaration");
    assert("do_statement"@.len() != "interface_declaration"@.len());
    reveal_strlit("enum_declaration");
    assert("do_statement"@.len() != "enum_declaration"@.len());
    reveal_strlit("method_declaration");
    assert("do_statement"@.len() != "method_declaration"@.len());
    reveal_strlit("constructor_declaration");
    assert("do_statement"@.len() != "constructor_declaration"@.len());
    reveal_strlit("lambda_expression");
    assert("do_statement"@.len() != "lambda_expression"@.len());
    reveal_strlit("formal_parameter");
    assert("do_statement"@.len() != "formal_parameter"@.len());
    reveal_strlit("spread_parameter");
    assert("do_statement"@.len() != "spread_parameter"@.len());
    reveal_strlit("block");
    assert("do_statement"@.len() != "block"@.len());
    reveal_strlit("local_variable_declaration");
    assert("do_statement"@.len() != "local_variable_declaration"@.len());
    reveal_strlit("variable_declarator");
    assert("do_statement"@.len() != "variable_declarator"@.len());
    reveal_strlit("field_declaration");
    assert("do_statement"@.len() != "field_declaration"@.len());
    reveal_strlit("if_statement");
    assert("do_statement"@[0] != "if_statement"@[0]);
    reveal_strlit("while_statement");
    assert("do_statement"@.len() != "while_statement"@.len());
    reveal_strlit("for_statement");
    assert("do_statement"@.len() != "for_statement"@.len());
    reveal_strlit("enhanced_for_statement");
    assert("do_statement"@.len() != "enhanced_for_statement"@.len());
    assert(java_kind(t, n, "do_statement"@) == KindView::Loop);
}

/// In the Java table, grammar kind `switch_expression` maps to `Match` for every node of every tree.
proof fn lemma_java_switch_expression_maps_to_match(t: &SyntaxTree, n: int)
    ensures
        mapped_kind(Language::Java, t, n, "switch_expression"@) == KindView::Match,
{
    reveal_strlit("switch_expression");
    reveal_strlit("program");
    assert("switch_expression"@.len() != "program"@.len());
    reveal_strlit("package_declaration");
    assert("switch_expression"@.len() != "package_declaration"@.len());
    reveal_strlit("class_declaration");
    assert("switch_expression"@[0] != "class_declaration"@[0]);
    reveal_strlit("interface_declaration");
    assert("switch_expression"@.len() != "interface_declaration"@.len());
    reveal_strlit("enum_declaration");
    assert("switch_expression"@.len() != "enum_declaration"@.len());
    reveal_strlit("method_declaration");
    assert("switch_expression"@.len() != "method_declaration"@.len());
    reveal_strlit("constructor_declaration");
    assert("switch_expression"@.len() != "constructor_declaration"@.len());
    reveal_strlit("lambda_expression");
    assert("switch_expression"@[0] != "lambda_expression"@[0]);
    reveal_strlit("formal_parameter");
    assert("switch_expression"@.len() != "formal_parameter"@.len());
    reveal_strlit("spread_parameter");
    assert("switch_expression"@.len() != "spread_parameter"@.len());
    reveal_strlit("block");
    assert("switch_expression"@.len() != "block"@.len());
    reveal_strlit("local_variable_declaration");
    assert("switch_expression"@.len() != "local_variable_declaration"@.len());
    reveal_strlit("variable_declarator");
    assert("switch_expression"@.len() != "variable_declarator"@.len());
    reveal_strlit("field_declaration");
    assert("switch_expression"@[0] != "field_declaration"@[0]);
    reveal_strlit("if_statement");
    assert("switch_expression"@.len() != "if_statement"@.len());
    reveal_strlit("while_statement");
    assert("switch_expression"@.len() != "while_statement"@.len());
    reveal_strlit("for_statement");
    assert("switch_expression"@.len() != "for_statement"@.len());
    reveal_strlit("enhanced_for_statement");
    assert("switch_expression"@.len() != "enhanced_for_statement"@.len());
    reveal_strlit("do_statement");
    assert("switch_expression"@.len() != "do_statement"@.len());
    assert(java_kind(t, n, "switch_expression"@) == KindView::Match);
}

/// In the Java table, grammar kind `switch_block_statement_group` maps to `MatchArm` for every node of every tree.
proof fn lemma_java_switch_block_statement_group_maps_to_match_arm(t: &SyntaxTree, n: int)
    ensures
        mapped_kind(Language::Java, t, n, "switch_block_statement_group"@) == KindView::MatchArm,
{
    reveal_strlit("switch_block_statement_group");
    reveal_strlit("program");
    assert("switch_block_statement_group"@.len() != "program"@.len());
    reveal_strlit("package_declaration");
    assert("switch_block_statement_group"@.len() != "package_declaration"@.len());
    reveal_strlit("class_declaration");
    assert("switch_block_statement_group"@.len() != "class_declaration"@.len());
    reveal_strlit("interface_declaration");
    assert("switch_block_statement_group"@.len() != "interface_declaration"@.len());
    reveal_strlit("enum_declaration");
    assert("switch_block_statement_group"@.len() != "enum_declaration"@.len());
    reveal_strlit("method_declaration");
    assert("switch_block_statement_group"@.len() != "method_declaration"@.len());
    reveal_strlit("constructor_declaration");
    assert("switch_block_statement_group"@.len() != "constructor_declaration"@.len());
    reveal_strlit("lambda_expression");
    assert("switch_block_statement_group"@.len() != "lambda_expression"@.len());
    reveal_strlit("formal_parameter");
    assert("switch_block_statement_group"@.len() != "formal_parameter"@.len());
    reveal_strlit("spread_parameter");
    assert("switch_block_statement_group"@.len() != "spread_parameter"@.len());
    reveal_strlit("block");
    assert("switch_block_statement_group"@.len() != "block"@.len());
    reveal_strlit("local_variable_declaration");
    assert("switch_block_statement_group"@.len() != "local_variable_declaration"@.len());
    reveal_strlit("variable_declarator");
    assert("switch_block_statement_group"@.len() != "variable_declarator"@.len());
    reveal_strlit("field_declaration");
    assert("switch_block_statement_group"@.len() != "field_declaration"@.len());
    reveal_strlit("if_statement");
    assert("switch_block_statement_group"@.len() != "if_statement"@.len());
    reveal_strlit("while_statement");
    assert("switch_block_statement_group"@.len() != "while_statement"@.len());
    reveal_strlit("for_statement");
    assert("switch_block_statement_group"@.len() != "for_statement"@.len());
    reveal_strlit("enhanced_for_statement");
    assert("switch_block_statement_group"@.len() != "enhanced_for_statement"@.len());
    reveal_strlit("do_statement");
    assert("switch_block_statement_group"@.len() != "do_statement"@.len());
    reveal_strlit("switch_expression");
    assert("switch_block_statement_group"@.len() != "switch_expression"@.len());
    assert(java_kind(t, n, "switch_block_statement_group"@) == KindView::MatchArm);
}

/// In the Java table, grammar kind `switch_rule` maps to `MatchArm` for every node of every tree.
proof fn lemma_java_switch_rule_maps_to_match_arm(t: &SyntaxTree, n: int)
    ensures
        mapped_kind(Language::Java, t, n, "switch_rule"@) == KindView::MatchArm,
{
    reveal_strlit("switch_rule");
    reveal_strlit("program");
    assert("switch_rule"@.len() != "program"@.len());
    reveal_strlit("package_declaration");
    assert("switch_rule"@.len() != "package_declaration"@.len());
    reveal_strlit("class_declaration");
    assert("switch_rule"@.len() != "class_declaration"@.len());
    reveal_strlit("interface_declaration");
    assert("switch_rule"@.len() != "interface_declaration"@.len());
    reveal_strlit("enum_declaration");
    assert("switch_rule"@.len() != "enum_declaration"@.len());
    reveal_strlit("method_declaration");
    assert("switch_rule"@.len() != "method_declaration"@.len());
    reveal_strlit("constructor_declaration");
    assert("switch_rule"@.len() != "constructor_declaration"@.len());
    reveal_strlit("lambda_expression");
    assert("switch_rule"@.len() != "lambda_expression"@.len());
    reveal_strlit("formal_parameter");
    assert("switch_rule"@.len() != "formal_parameter"@.len());
    reveal_strlit("spread_parameter");
    assert("switch_rule"@.len() != "spread_parameter"@.len());
    reveal_strlit("block");
    assert("switch_rule"@.len() != "block"@.len());
    reveal_strlit("local_variable_declaration");
    assert("switch_rule"@.len() != "local_variable_declaration"@.len());
    reveal_strlit("variable_declarator");
    assert("switch_rule"@.len() != "variable_declarator"@.len());
    reveal_strlit("field_declaration");
    assert("switch_rule"@.len() != "field_declaration"@.len());
    reveal_strlit("if_statement");
    assert("switch_rule"@.len() != "if_statement"@.len());
    reveal_strlit("while_statement");
    assert("switch_rule"@.len() != "while_statement"@.len());
    reveal_strlit("for_statement");
    assert("switch_rule"@.len() != "for_statement"@.len());
    reveal_strlit("enhanced_for_statement");
    assert("switch_rule"@.len() != "enhanced_for_statement"@.len());
    reveal_strlit("do_statement");
    assert("switch_rule"@.len() != "do_statement"@.len());
    reveal_strlit("switch_expression");
    assert("switch_rule"@.len() != "switch_expression"@.len());
    assert(java_kind(t, n, "switch_rule"@) == KindView::MatchArm);
}

/// In the Java table, grammar kind `return_statement` maps to `Return` for every node of every tree.
proof fn lemma_java_return_statement_maps_to_return(t: &SyntaxTree, n: int)
    ensures
        mapped_kind(Language::Java, t, n, "return_statement"@) == KindView::Return,
{
    reveal_strlit("return_statement");
    reveal_strlit("program");
    assert("return_statement"@.len() != "program"@.len());
    reveal_strlit("package_declaration");
    assert("return_statement"@.len() != "package_declaration"@.len());
    reveal_strlit("class_declaration");
    assert("return_statement"@.len() != "class_declaration"@.len());
    reveal_strlit("interface_declaration");
    assert("return_statement"@.len() != "interface_declaration"@.len());
    reveal_strlit("enum_declaration");
    assert("return_statement"@[0] != "enum_declaration"@[0]);
    reveal_strlit("method_declaration");
    assert("return_statement"@.len() != "method_declaration"@.len());
    reveal_strlit("constructor_declaration");
    assert("return_statement"@.len() != "constructor_declaration"@.len());
    reveal_strlit("lambda_expression");
    assert("return_statement"@.len() != "lambda_expression"@.len());
    reveal_strlit("formal_parameter");
    assert("return_statement"@[0] != "formal_parameter"@[0]);
    reveal_strlit("spread_parameter");
    assert("return_statement"@[0] != "spread_parameter"@[0]);
    reveal_strlit("block");
    assert("return_statement"@.len() != "block"@.len());
    reveal_strlit("local_variable_declaration");
    assert("return_statement"@.len() != "local_variable_declaration"@.len());
    reveal_strlit("variable_declarator");
    assert("return_statement"@.len() != "variable_declarator"@.len());
    reveal_strlit("field_declaration");
    assert("return_statement"@.len() != "field_declaration"@.len());
    reveal_strlit("if_statement");
    assert("return_statement"@.len() != "if_statement"@.len());
    reveal_strlit("while_statement");
    assert("return_statement"@.len() != "while_statement"@.len());
    reveal_strlit("for_statement");
    assert("return_statement"@.len() != "for_statement"@.len());
    reveal_strlit("enhanced_for_statement");
    assert("return_statement"@.len() != "enhanced_for_statement"@.len());
    reveal_strlit("do_statement");
    assert("return_statement"@.len() != "do_statement"@.len());
    reveal_strlit("switch_expression");
    assert("return_statement"@.len() != "switch_expression"@.len());
    reveal_strlit("switch_block_statement_group");
    assert("return_statement"@.len() != "switch_block_statement_group"@.len());
    reveal_strlit("switch_rule");
    assert("return_statement"@.len() != "switch_rule"@.len());
    assert(java_kind(t, n, "return_statement"@) == KindView::Return);
}

/// In the Java table, grammar kind `break_statement` maps to `Break` for every node of every tree.
proof fn lemma_java_break_statement_maps_to_break(t: &SyntaxTree, n: int)
    ensures
        mapped_kind(Language::Java, t, n, "break_statement"@) == KindView::Break,
{
    reveal_strlit("break_statement");
    reveal_strlit("program");
    assert("break_statement"@.len() != "program"@.len());
    reveal_strlit("package_declaration");
    assert("break_statement"@.len() != "package_declaration"@.len());
    reveal_strlit("class_declaration");
    assert("break_statement"@.len() != "class_declaration"@.len());
    reveal_strlit("interface_declaration");
    assert("break_statement"@.len() != "interface_declaration"@.len());
    reveal_strlit("enum_declaration");
    assert("break_statement"@.len() != "enum_declaration"@.len());
    reveal_strlit("method_declaration");
    assert("break_statement"@.len() != "method_declaration"@.len());
    reveal_strlit("constructor_declaration");
    assert("break_statement"@.len() != "constructor_declaration"@.len());
    reveal_strlit("lambda_expression");
    assert("break_statement"@.len() != "lambda_expression"@.len());
    reveal_strlit("formal_parameter");
    assert("break_statement"@.len() != "formal_parameter"@.len());
    reveal_strlit("spread_parameter");
    assert("break_statement"@.len() != "spread_parameter"@.len());
    reveal_strlit("block");
    assert("break_statement"@.len() != "block"@.len());
    reveal_strlit("local_variable_declaration");
    assert("break_statement"@.len() != "local_variable_declaration"@.len());
    reveal_strlit("variable_declarator");
    assert("break_statement"@.len() != "variable_declarator"@.len());
    reveal_strlit("field_declaration");
    assert("break_statement"@.len() != "field_declaration"@.len());
    reveal_strlit("if_statement");
    assert("break_statement"@.len() != "if_statement"@.len());
    reveal_strlit("while_statement");
    assert("break_statement"@[0] != "while_statement"@[0]);
    reveal_strlit("for_statement");
    assert("break_statement"@.len() != "for_statement"@.len());
    reveal_strlit("enhanced_for_statement");
    assert("break_statement"@.len() != "enhanced_for_statement"@.len());
    reveal_strlit("do_statement");
    assert("break_statement"@.len() != "do_statement"@.len());
    reveal_strlit("switch_expression");
    assert("break_statement"@.len() != "switch_expression"@.len());
    reveal_strlit("switch_block_statement_group");
    assert("break_statement"@.len() != "switch_block_statement_group"@.len());
    reveal_strlit("switch_rule");
    assert("break_statement"@.len() != "switch_rule"@.len());
    reveal_strlit("return_statement");
    assert("break_statement"@.len() != "return_statement"@.len());
    assert(java_kind(t, n, "break_statement"@) == KindView::Break);
}

/// In the Java table, grammar kind `continue_statement` maps to `Continue` for every node of every tree.
proof fn lemma_java_continue_statement_maps_to_continue(t: &SyntaxTree, n: int)
    ensures
        mapped_kind(Language::Java, t, n, "continue_statement"@) == KindView::Continue,
{
    reveal_strlit("continue_statement");
    reveal_strlit("program");
    assert("continue_statement"@.len() != "program"@.len());
    reveal_strlit("package_declaration");
    assert("continue_statement"@.len() != "package_declaration"@.len());
    reveal_strlit("class_declaration");
    assert("continue_statement"@.len() != "class_declaration"@.len());
    reveal_strlit("interface_declaration");
    assert("continue_statement"@.len() != "interface_declaration"@.len());
    reveal_strlit("enum_declaration");
    assert("continue_statement"@.len() != "enum_declaration"@.len());
    reveal_strlit("method_declaration");
    assert("continue_statement"@[0] != "method_declaration"@[0]);
    reveal_strlit("constructor_declaration");
    assert("continue_statement"@.len() != "constructor_declaration"@.len());
    reveal_strlit("lambda_expression");
    assert("continue_statement"@.len() != "lambda_expression"@.len());
    reveal_strlit("formal_parameter");
    assert("continue_statement"@.len() != "formal_parameter"@.len());
    reveal_strlit("spread_parameter");
    assert("continue_statement"@.len() != "spread_parameter"@.len());
    reveal_strlit("block");
    assert("continue_statement"@.len() != "block"@.len());
    reveal_strlit("local_variable_declaration");
    assert("continue_statement"@.len() != "local_variable_declaration"@.len());
    reveal_strlit("variable_declarator");
    assert("continue_statement"@.len() != "variable_declarator"@.len());
    reveal_strlit("field_declaration");
    assert("continue_statement"@.len() != "field_declaration"@.len());
    reveal_strlit("if_statement");
    assert("continue_statement"@.len() != "if_statement"@.len());
    reveal_strlit("while_statement");
    assert("continue_statement"@.len() != "while_statement"@.len());
    reveal_strlit("for_statement");
    assert("continue_statement"@.len() != "for_statement"@.len());
    reveal_strlit("enhanced_for_statement");
    assert("continue_statement"@.len() != "enhanced_for_statement"@.len());
    reveal_strlit("do_statement");
    assert("continue_statement"@.len() != "do_statement"@.len());
    reveal_strlit("switch_expression");
    assert("continue_statement"@.len() != "switch_expression"@.len());
    reveal_strlit("switch_block_statement_group");
    assert("continue_statement"@.len() != "switch_block_statement_group"@.len());
    reveal_strlit("switch_rule");
    assert("continue_statement"@.len() != "switch_rule"@.len());
    reveal_strlit("return_statement");
    assert("continue_statement"@.len() != "return_statement"@.len());
    reveal_strlit("break_statement");
    assert("continue_statement"@.len() != "break_statement"@.len());
    assert(java_kind(t, n, "continue_statement"@) == KindView::Continue);
}

/// In the Java table, grammar kind `try_statement` maps to `Try` for every node of every tree.
proof fn lemma_java_try_statement_maps_to_try(t: &SyntaxTree, n: int)
    ensures
        mapped_kind(Language::Java, t, n, "try_statement"@) == KindView::Try,
{
    reveal_strlit("try_statement");
    reveal_strlit("program");
    assert("try_statement"@.len() != "program"@.len());
    reveal_strlit("package_declaration");
    assert("try_statement"@.len() != "package_declaration"@.len());
    reveal_strlit("class_declaration");
    assert("try_statement"@.len() != "class_declaration"@.len());
    reveal_strlit("interface_declaration");
    assert("try_statement"@.len() != "interface_declaration"@.len());
    reveal_strlit("enum_declaration");
    assert("try_statement"@.len() != "enum_declaration"@.len());
    reveal_strlit("method_declaration");
    assert("try_statement"@.len() != "method_declaration"@.len());
    reveal_strlit("constructor_declaration");
    assert("try_statement"@.len() != "constructor_declaration"@.len());
    reveal_strlit("lambda_expression");
    assert("try_statement"@.len() != "lambda_expression"@.len());
    reveal_strlit("formal_parameter");
    assert("try_statement"@.len() != "formal_parameter"@.len());
    reveal_strlit("spread_parameter");
    assert("try_statement"@.len() != "spread_parameter"@.len());
    reveal_strlit("block");
    assert("try_statement"@.len() != "block"@.len());
    reveal_strlit("local_variable_declaration");
    assert("try_statement"@.len() != "local_variable_declaration"@.len());
    reveal_strlit("variable_declarator");
    assert("try_statement"@.len() != "variable_declarator"@.len());
    reveal_strlit("field_declaration");
    assert("try_statement"@.len() != "field_declaration"@.len());
    reveal_strlit("if_statement");
    assert("try_statement"@.len() != "if_statement"@.len());
    reveal_strlit("while_statement");
    assert("try_statement"@.len() != "while_statement"@.len());
    reveal_strlit("for_statement");
    assert("try_statement"@[0] != "for_statement"@[0]);
    reveal_strlit("enhanced_for_statement");
    assert("try_statement"@.len() != "enhanced_for_statement"@.len());
    reveal_strlit("do_statement");
    assert("try_statement"@.len() != "do_statement"@.len());
    reveal_strlit("switch_expression");
    assert("try_statement"@.len() != "switch_expression"@.len());
    reveal_strlit("switch_block_statement_group");
    assert("try_statement"@.len() != "switch_block_statement_group"@.len());
    reveal_strlit("switch_rule");
    assert("try_statement"@.len() != "switch_rule"@.len());
    reveal_strlit("return_statement");
    assert("try_statement"@.len() != "return_statement"@.len());
    reveal_strlit("break_statement");
    assert("try_statement"@.len() != "break_statement"@.len());
    reveal_strlit("continue_statement");
    assert("try_statement"@.len() != "continue_statement"@.len());
    assert(java_kind(t, n, "try_statement"@) == KindView::Try);
}

/// In the Java table, grammar kind `try_with_resources_statement` maps to `Try` for every node of every tree.
proof fn lemma_java_try_with_resources_statement_maps_to_try(t: &SyntaxTree, n: int)
    ensures
        mapped_kind(Language::Java, t, n, "try_with_resources_statement"@) == KindView::Try,
{
    reveal_strlit("try_with_resources_statement");
    reveal_strlit("program");
    assert("try_with_resources_statement"@.len() != "program"@.len());
    reveal_strlit("package_declaration");
    assert("try_with_resources_statement"@.len() != "package_declaration"@.len());
    reveal_strlit("class_declaration");
    assert("try_with_resources_statement"@.len() != "class_declaration"@.len());
    reveal_strlit("interface_declaration");
    assert("try_with_resources_statement"@.len() != "interface_declaration"@.len());
    reveal_strlit("enum_declaration");
    assert("try_with_resources_statement"@.len() != "enum_declaration"@.len());
    reveal_strlit("method_declaration");
    assert("try_with_resources_statement"@.len() != "method_declaration"@.len());
    reveal_strlit("constructor_declaration");
    assert("try_with_resources_statement"@.len() != "constructor_declaration"@.len());
    reveal_strlit("lambda_expression");
    assert("try_with_resources_statement"@.len() != "lambda_expression"@.len());
    reveal_strlit("formal_parameter");
    assert("try_with_resources_statement"@.len() != "formal_parameter"@.len());
    reveal_strlit("spread_parameter");
    assert("try_with_resources_statement"@.len() != "spread_parameter"@.len());
    reveal_strlit("block");
    assert("try_with_resources_statement"@.len() != "block"@.len());
    reveal_strlit("local_variable_declaration");
    assert("try_with_resources_statement"@.len() != "local_variable_declaration"@.len());
    reveal_strlit("variable_declarator");
    assert("try_with_resources_statement"@.len() != "variable_declarator"@.len());
    reveal_strlit("field_declaration");
    assert("try_with_resources_statement"@.len() != "field_declaration"@.len());
    reveal_strlit("if_statement");
    assert("try_with_resources_statement"@.len() != "if_statement"@.len());
    reveal_strlit("while_statement");
    assert("try_with_resources_statement"@.len() != "while_statement"@.len());
    reveal_strlit("for_statement");
    assert("try_with_resources_statement"@.len() != "for_statement"@.len());
    reveal_strlit("enhanced_for_statement");
    assert("try_with_resources_statement"@.len() != "enhanced_for_statement"@.len());
    reveal_strlit("do_statement");
    assert("try_with_resources_statement"@.len() != "do_statement"@.len());
    reveal_strlit("switch_expression");
    assert("try_with_resources_statement"@.len() != "switch_expression"@.len());
    reveal_strlit("switch_block_statement_group");
    assert("try_with_resources_statement"@[0] != "switch_block_statement_group"@[0]);
    reveal_strlit("switch_rule");
    assert("try_with_resources_statement"@.len() != "switch_rule"@.len());
    reveal_strlit("return_statement");
    assert("try_with_resources_statement"@.len() != "return_statement"@.len());
    reveal_strlit("break_statement");
    assert("try_with_resources_statement"@.len() != "break_statement"@.len());
    reveal_strlit("continue_statement");
    assert("try_with_resources_statement"@.len() != "continue_statement"@.len());
    assert(java_kind(t, n, "try_with_resources_statement"@) == KindView::Try);
}

/// In the Java table, grammar kind `catch_clause` maps to `Catch` for every node of every tree.
proof fn lemma_java_catch_clause_maps_to_catch(t: &SyntaxTree, n: int)
    ensures
        mapped_kind(Language::Java, t, n, "catch_clause"@) == KindView::Catch,
{
    reveal_strlit("catch_clause");
    reveal_strlit("program");
    assert("catch_clause"@.len() != "program"@.len());
    reveal_strlit("package_declaration");
    assert("catch_clause"@.len() != "package_declaration"@.len());
    reveal_strlit("class_declaration");
    assert("catch_clause"@.len() != "class_declaration"@.len());
    reveal_strlit("interface_declaration");
    assert("catch_clause"@.len() != "interface_declaration"@.len());
    reveal_strlit("enum_declaration");
    assert("catch_clause"@.len() != "enum_declaration"@.len());
    reveal_strlit("method_declaration");
    assert("catch_clause"@.len() != "method_declaration"@.len());
    reveal_strlit("constructor_declaration");
    assert("catch_clause"@.len() != "constructor_declaration"@.len());
    reveal_strlit("lambda_expression");
    assert("catch_clause"@.len() != "lambda_expression"@.len());
    reveal_strlit("formal_parameter");
    assert("catch_clause"@.len() != "formal_parameter"@.len());
    reveal_strlit("spread_parameter");
    assert("catch_clause"@.len() != "spread_parameter"@.len());
    reveal_strlit("block");
    assert("catch_clause"@.len() != "block"@.len());
    reveal_strlit("local_variable_declaration");
    assert("catch_clause"@.len() != "local_variable_declaration"@.len());
    reveal_strlit("variable_declarator");
    assert("catch_clause"@.len() != "variable_declarator"@.len());
    reveal_strlit("field_declaration");
    assert("catch_clause"@.len() != "field_declaration"@.len());
    reveal_strlit("if_statement");
    assert("catch_clause"@[0] != "if_statement"@[0]);
    reveal_strlit("while_statement");
    assert("catch_clause"@.len() != "while_statement"@.len());
    reveal_strlit("for_statement");
    assert("catch_clause"@.len() != "for_statement"@.len());
    reveal_strlit("enhanced_for_statement");
    assert("catch_clause"@.len() != "enhanced_for_statement"@.len());
    reveal_strlit("do_statement");
    assert("catch_clause"@[0] != "do_statement"@[0]);
    reveal_strlit("switch_expression");
    assert("catch_clause"@.len() != "switch_expression"@.len());
    reveal_strlit("switch_block_statement_group");
    assert("catch_clause"@.len() != "switch_block_statement_group"@.len());
    reveal_strlit("switch_rule");
    assert("catch_clause"@.len() != "switch_rule"@.len());
    reveal_strlit("return_statement");
    assert("catch_clause"@.len() != "return_statement"@.len());
    reveal_strlit("break_statement");
    assert("catch_clause"@.len() != "break_statement"@.len());
    reveal_strlit("continue_statement");
    assert("catch_clause"@.len() != "continue_statement"@.len());
    reveal_strlit("try_statement");
    assert("catch_clause"@.len() != "try_statement"@.len());
    reveal_strlit("try_with_resources_statement");
    assert("catch_clause"@.len() != "try_with_resources_statement"@.len());
    assert(java_kind(t, n, "catch_clause"@) == KindView::Catch);
}

/// In the Java table, grammar kind `finally_clause` maps to `Finally` for every node of every tree.
proof fn lemma_java_finally_clause_maps_to_finally(t: &SyntaxTree, n: int)
    ensures
        mapped_kind(Language::Java, t, n, "finally_clause"@) == KindView::Finally,
{
    reveal_strlit("finally_clause");
    reveal_strlit("program");
    assert("finally_clause"@.len() != "program"@.len());
    reveal_strlit("package_declaration");
    assert("finally_clause"@.len() != "package_declaration"@.len());
    reveal_strlit("class_declaration");
    assert("finally_clause"@.len() != "class_declaration"@.len());
    reveal_strlit("interface_declaration");
    assert("finally_clause"@.len() != "interface_declaration"@.len());
    reveal_strlit("enum_declaration");
    assert("finally_clause"@.len() != "enum_declaration"@.len());
    reveal_strlit("method_declaration");
    assert("finally_clause"@.len() != "method_declaration"@.len());
    reveal_strlit("constructor_declaration");
    assert("finally_clause"@.len() != "constructor_declaration"@.len());
    reveal_strlit("lambda_expression");
    assert("finally_clause"@.len() != "lambda_expression"@.len());
    reveal_strlit("formal_parameter");
    assert("finally_clause"@.len() != "formal_parameter"@.len());
    reveal_strlit("spread_parameter");
    assert("finally_clause"@.len() != "spread_parameter"@.len());
    reveal_strlit("block");
    assert("finally_clause"@.len() != "block"@.len());
    reveal_strlit("local_variable_declaration");
    assert("finally_clause"@.len() != "local_variable_declaration"@.len());
    reveal_strlit("variable_declarator");
    assert("finally_clause"@.len() != "variable_declarator"@.len());
    reveal_strlit("field_declaration");
    assert("finally_clause"@.len() != "field_declaration"@.len());
    reveal_strlit("if_statement");
    assert("finally_clause"@.len() != "if_statement"@.len());
    reveal_strlit("while_statement");
    assert("finally_clause"@.len() != "while_statement"@.len());
    reveal_strlit("for_statement");
    assert("finally_clause"@.len() != "for_statement"@.len());
    reveal_strlit("enhanced_for_statement");
    assert("finally_clause"@.len() != "enhanced_for_statement"@.len());
    reveal_strlit("do_statement");
    assert("finally_clause"@.len() != "do_statement"@.len());
    reveal_strlit("switch_expression");
    assert("finally_clause"@.len() != "switch_expression"@.len());
    reveal_strlit("switch_block_statement_group");
    assert("finally_clause"@.len() != "switch_block_statement_group"@.len());
    reveal_strlit("switch_rule");
    assert("finally_clause"@.len() != "switch_rule"@.len());
    reveal_strlit("return_statement");
    assert("finally_clause"@.len() != "return_statement"@.len());
    reveal_strlit("break_statement");
    assert("finally_clause"@.len() != "break_statement"@.len());
    reveal_strlit("continue_statement");
    assert("finally_clause"@.len() != "continue_statement"@.len());
    reveal_strlit("try_statement");
    assert("finally_clause"@.len() != "try_statement"@.len());
    reveal_strlit("try_with_resources_statement");
    assert("finally_clause"@.len() != "try_with_resources_statement"@.len());
    reveal_strlit("catch_clause");
    assert("finally_clause"@.len() != "catch_clause"@.len());
    assert(java_kind(t, n, "finally_clause"@) == KindView::Finally);
}

/// In the Java table, grammar kind `throw_statement` maps to `Throw` for every node of every tree.
proof fn lemma_java_throw_statement_maps_to_throw(t: &SyntaxTree, n: int)
    ensures
        mapped_kind(Language::Java, t, n, "throw_statement"@) == KindView::Throw,
{
    reveal_strlit("throw_statement");
    reveal_strlit("program");
    assert("throw_statement"@.len() != "program"@.len());
    reveal_strlit("package_declaration");
    assert("throw_statement"@.len() != "package_declaration"@.len());
    reveal_strlit("class_declaration");
    assert("throw_statement"@.len() != "class_declaration"@.len());
    reveal_strlit("interface_declaration");
    assert("throw_statement"@.len() != "interface_declaration"@.len());
    reveal_strlit("enum_declaration");
    assert("throw_statement"@.len() != "enum_declaration"@.len());
    reveal_strlit("method_declaration");
    assert("throw_statement"@.len() != "method_declaration"@.len());
    reveal_strlit("constructor_declaration");
    assert("throw_statement"@.len() != "constructor_declaration"@.len());
    reveal_strlit("lambda_expression");
    assert("throw_statement"@.len() != "lambda_expression"@.len());
    reveal_strlit("formal_parameter");
    assert("throw_statement"@.len() != "formal_parameter"@.len());
    reveal_strlit("spread_parameter");
    assert("throw_statement"@.len() != "spread_parameter"@.len());
    reveal_strlit("block");
    assert("throw_statement"@.len() != "block"@.len());
    reveal_strlit("local_variable_declaration");
    assert("throw_statement"@.len() != "local_variable_declaration"@.len());
    reveal_strlit("variable_declarator");
    assert("throw_statement"@.len() != "variable_declarator"@.len());
    reveal_strlit("field_declaration");
    assert("throw_statement"@.len() != "field_declaration"@.len());
    reveal_strlit("if_statement");
    assert("throw_statement"@.len() != "if_statement"@.len());
    reveal_strlit("while_statement");
    assert("throw_statement"@[0] != "while_statement"@[0]);
    reveal_strlit("for_statement");
    assert("throw_statement"@.len() != "for_statement"@.len());
    reveal_strlit("enhanced_for_statement");
    assert("throw_statement"@.len() != "enhanced_for_statement"@.len());
    reveal_strlit("do_statement");
    assert("throw_statement"@.len() != "do_statement"@.len());
    reveal_strlit("switch_expression");
    assert("throw_statement"@.len() != "switch_expression"@.len());
    reveal_strlit("switch_block_statement_group");
    assert("throw_statement"@.len() != "switch_block_statement_group"@.len());
    reveal_strlit("switch_rule");
    assert("throw_statement"@.len() != "switch_rule"@.len());
    reveal_strlit("return_statement");
    assert("throw_statement"@.len() != "return_statement"@.len());
    reveal_strlit("break_statement");
    assert("throw_statement"@[0] != "break_statement"@[0]);
    reveal_strlit("continue_statement");
    assert("throw_statement"@.len() != "continue_statement"@.len());
    reveal_strlit("try_statement");
    assert("throw_statement"@.len() != "try_statement"@.len());
    reveal_strlit("try_with_resources_statement");
    assert("throw_statement"@.len() != "try_with_resources_statement"@.len());
    reveal_strlit("catch_clause");
    assert("throw_statement"@.len() != "catch_clause"@.len());
    reveal_strlit("finally_clause");
    assert("throw_statement"@.len() != "finally_clause"@.len());
    assert(java_kind(t, n, "throw_statement"@) == KindView::Throw);
}

/// In the C and C++ table, grammar kind `if_statement` maps to `If` for every node of every tree.
proof fn lemma_c_if_statement_maps_to_if(t: &SyntaxTree, n: int)
    ensures
        mapped_kind(Language::C, t, n, "if_statement"@) == KindView::If,
        mapped_kind(Language::Cpp, t, n, "if_statement"@) == KindView::If,
{
    reveal_strlit("if_statement");
    reveal_strlit("translation_unit");
    assert("if_statement"@.len() != "translation_unit"@.len());
    reveal_strlit("namespace_definition");
    assert("if_statement"@.len() != "namespace_definition"@.len());
    reveal_strlit("class_specifier");
    assert("if_statement"@.len() != "class_specifier"@.len());
    reveal_strlit("struct_specifier");
    assert("if_statement"@.len() != "struct_specifier"@.len());
    reveal_strlit("enum_specifier");
    assert("if_statement"@.len() != "enum_specifier"@.len());
    reveal_strlit("function_definition");
    assert("if_statement"@.len() != "function_definition"@.len());
    reveal_strlit("function_declarator");
    assert("if_statement"@.len() != "function_declarator"@.len());
    reveal_strlit("lambda_expression");
    assert("if_statement"@.len() != "lambda_expression"@.len());
    reveal_strlit("parameter_declaration");
    assert("if_statement"@.len() != "parameter_declaration"@.len());
    reveal_strlit("compound_statement");
    assert("if_statement"@.len() != "compound_statement"@.len());
    reveal_strlit("declaration");
    assert("if_statement"@.len() != "declaration"@.len());
    reveal_strlit("init_declarator");
    assert("if_statement"@.len() != "init_declarator"@.len());
    reveal_strlit("field_declaration");
    assert("if_statement"@.len() != "field_declaration"@.len());
    assert(c_kind(t, n, "if_statement"@) == KindView::If);
}

/// In the C and C++ table, grammar kind `else_clause` maps to `Else` for every node of every tree.
proof fn lemma_c_else_clause_maps_to_else(t: &SyntaxTree, n: int)
    ensures
        mapped_kind(Language::C, t, n, "else_clause"@) == KindView::Else,
        mapped_kind(Language::Cpp, t, n, "else_clause"@) == KindView::Else,
{
    reveal_strlit("else_clause");
    reveal_strlit("translation_unit");
    assert("else_clause"@.len() != "translation_unit"@.len());
    reveal_strlit("namespace_definition");
    assert("else_clause"@.len() != "namespace_definition"@.len());
    reveal_strlit("class_specifier");
    assert("else_clause"@.len() != "class_specifier"@.len());
    reveal_strlit("struct_specifier");
    assert("else_clause"@.len() != "struct_specifier"@.len());
    reveal_strlit("enum_specifier");
    assert("else_clause"@.len() != "enum_specifier"@.len());
    reveal_strlit("function_definition");
    assert("else_clause"@.len() != "function_definition"@.len());
    reveal_strlit("function_declarator");
    assert("else_clause"@.len() != "function_declarator"@.len());
    reveal_strlit("lambda_expression");
    assert("else_clause"@.len() != "lambda_expression"@.len());
    reveal_strlit("parameter_declaration");
    assert("else_clause"@.len() != "parameter_declaration"@.len());
    reveal_strlit("compound_statement");
    assert("else_clause"@.len() != "compound_statement"@.len());
    reveal_strlit("declaration");
    assert("else_clause"@[0] != "declaration"@[0]);
    reveal_strlit("init_declarator");
    assert("else_clause"@.len() != "init_declarator"@.len());
    reveal_strlit("field_declaration");
    assert("else_clause"@.len() != "field_declaration"@.len());
    reveal_strlit("if_statement");
    assert("else_clause"@.len() != "if_statement"@.len());
    assert(c_kind(t, n, "else_clause"@) == KindView::Else);
}

/// In the C and C++ table, grammar kind `while_statement` maps to `While` for every node of every tree.
proof fn lemma_c_while_statement_maps_to_while(t: &SyntaxTree, n: int)
    ensures
        mapped_kind(Language::C, t, n, "while_statement"@) == KindView::While,
        mapped_kind(Language::Cpp, t, n, "while_statement"@) == KindView::While,
{
    reveal_strlit("while_statement");
    reveal_strlit("translation_unit");
    assert("while_statement"@.len() != "translation_unit"@.len());
    reveal_strlit("namespace_definition");
    assert("while_statement"@.len() != "namespace_definition"@.len());
    reveal_strlit("class_specifier");
    assert("while_statement"@[0] != "class_specifier"@[0]);
    reveal_strlit("struct_specifier");
    assert("while_statement"@.len() != "struct_specifier"@.len());
    reveal_strlit("enum_specifier");
    assert("while_statement"@.len() != "enum_specifier"@.len());
    reveal_strlit("function_definition");
    assert("while_statement"@.len() != "function_definition"@.len());
    reveal_strlit("function_declarator");
    assert("while_statement"@.len() != "function_declarator"@.len());
    reveal_strlit("lambda_expression");
    assert("while_statement"@.len() != "lambda_expression"@.len());
    reveal_strlit("parameter_declaration");
    assert("while_statement"@.len() != "parameter_declaration"@.len());
    reveal_strlit("compound_statement");
    assert("while_statement"@.len() != "compound_statement"@.len());
    reveal_strlit("declaration");
    assert("while_statement"@.len() != "declaration"@.len());
    reveal_strlit("init_declarator");
    assert("while_statement"@[0] != "init_declarator"@[0]);
    reveal_strlit("field_declaration");
    assert("while_statement"@.len() != "field_declaration"@.len());
    reveal_strlit("if_statement");
    assert("while_statement"@.len() != "if_statement"@.len());
    reveal_strlit("else_clause");
    assert("while_statement"@.len() != "else_clause"@.len());
    assert(c_kind(t, n, "while_statement"@) == KindView::While);
}

/// In the C and C++ table, grammar kind `for_statement` maps to `For` for every node of every tree.
proof fn lemma_c_for_statement_maps_to_for(t: &SyntaxTree, n: int)
    ensures
        mapped_kind(Language::C, t, n, "for_statement"@) == KindView::For,
        mapped_kind(Language::Cpp, t, n, "for_statement"@) == KindView::For,
{
    reveal_strlit("for_statement");
    reveal_strlit("translation_unit");
    assert("for_statement"@.len() != "translation_unit"@.len());
    reveal_strlit("namespace_definition");
    assert("for_statement"@.len() != "namespace_definition"@.len());
    reveal_strlit("class_specifier");
    assert("for_statement"@.len() != "class_specifier"@.len());
    reveal_strlit("struct_specifier");
    assert("for_statement"@.len() != "struct_specifier"@.len());
    reveal_strlit("enum_specifier");
    assert("for_statement"@.len() != "enum_specifier"@.len());
    reveal_strlit("function_definition");
    assert("for_statement"@.len() != "function_definition"@.len());
    reveal_strlit("function_declarator");
    assert("for_statement"@.len() != "function_declarator"@.len());
    reveal_strlit("lambda_expression");
    assert("for_statement"@.len() != "lambda_expression"@.len());
    reveal_strlit("parameter_declaration");
    assert("for_statement"@.len() != "parameter_declaration"@.len());
    reveal_strlit("compound_statement");
    assert("for_statement"@.len() != "compound_statement"@.len());
    reveal_strlit("declaration");
    assert("for_statement"@.len() != "declaration"@.len());
    reveal_strlit("init_declarator");
    assert("for_statement"@.len() != "init_declarator"@.len());
    reveal_strlit("field_declaration");
    assert("for_statement"@.len() != "field_declaration"@.len());
    reveal_strlit("if_statement");
    assert("for_statement"@.len() != "if_statement"@.len());
    reveal_strlit("else_clause");
    assert("for_statement"@.len() != "else_clause"@.len());
    reveal_strlit("while_statement");
    assert("for_statement"@.len() != "while_statement"@.len());
    assert(c_kind(t, n, "for_statement"@) == KindView::For);
}

/// In the C and C++ table, grammar kind `for_range_loop` maps to `For` for every node of every tree.
proof fn lemma_c_for_range_loop_maps_to_for(t: &SyntaxTree, n: int)
    ensures
        mapped_kind(Language::C, t, n, "for_range_loop"@) == KindView::For,
        mapped_kind(Language::Cpp, t, n, "for_range_loop"@) == KindView::For,
{
    reveal_strlit("for_range_loop");
    reveal_strlit("translation_unit");
    assert("for_range_loop"@.len() != "translation_unit"@.len());
    reveal_strlit("namespace_definition");
    assert("for_range_loop"@.len() != "namespace_definition"@.len());
    reveal_strlit("class_specifier");
    assert("for_range_loop"@.len() != "class_specifier"@.len());
    reveal_strlit("struct_specifier");
    assert("for_range_loop"@.len() != "struct_specifier"@.len());
    reveal_strlit("enum_specifier");
    assert("for_range_loop"@[0] != "enum_specifier"@[0]);
    reveal_strlit("function_definition");
    assert("for_range_loop"@.len() != "function_definition"@.len());
    reveal_strlit("function_declarator");
    assert("for_range_loop"@.len() != "function_declarator"@.len());
    reveal_strlit("lambda_expression");
    assert("for_range_loop"@.len() != "lambda_expression"@.len());
    reveal_strlit("parameter_declaration");
    assert("for_range_loop"@.len() != "parameter_declaration"@.len());
    reveal_strlit("compound_statement");
    assert("for_range_loop"@.len() != "compound_statement"@.len());
    reveal_strlit("declaration");
    assert("for_range_loop"@.len() != "declaration"@.len());
    reveal_strlit("init_declarator");
    assert("for_range_loop"@.len() != "init_declarator"@.len());
    reveal_strlit("field_declaration");
    assert("for_range_loop"@.len() != "field_declaration"@.len());
    reveal_strlit("if_statement");
    assert("for_range_loop"@.len() != "if_statement"@.len());
    reveal_strlit("else_clause");
    assert("for_range_loop"@.len() != "else_clause"@.len());
    reveal_strlit("while_statement");
    assert("for_range_loop"@.len() != "while_statement"@.len());
    assert(c_kind(t, n, "for_range_loop"@) == KindView::For);
}

/// In the C and C++ table, grammar kind `do_statement` maps to `Loop` for every node of every tree.
proof fn lemma_c_do_statement_maps_to_loop(t: &SyntaxTree, n: int)
    ensures
        mapped_kind(Language::C, t, n, "do_statement"@) == KindView::Loop,
        mapped_kind(Language::Cpp, t, n, "do_statement"@) == KindView::Loop,
{
    reveal_strlit("do_statement");
    reveal_strlit("translation_unit");
    assert("do_statement"@.len() != "translation_unit"@.len());
    reveal_strlit("namespace_definition");
    assert("do_statement"@.len() != "namespace_definition"@.len());
    reveal_strlit("class_specifier");
    assert("do_statement"@.len() != "class_specifier"@.len());
    reveal_strlit("struct_specifier");
    assert("do_statement"@.len() != "struct_specifier"@.len());
    reveal_strlit("enum_specifier");
    assert("do_statement"@.len() != "enum_specifier"@.len());
    reveal_strlit("function_definition");
    assert("do_statement"@.len() != "function_definition"@.len());
    reveal_strlit("function_declarator");
    assert("do_statement"@.len() != "function_declarator"@.len());
    reveal_strlit("lambda_expression");
    assert("do_statement"@.len() != "lambda_expression"@.len());
    reveal_strlit("parameter_declaration");
    assert("do_statement"@.len() != "parameter_declaration"@.len());
    reveal_strlit("compound_statement");
    assert("do_statement"@.len() != "compound_statement"@.len());
    reveal_strlit("declaration");
    assert("do_statement"@.len() != "declaration"@.len());
    reveal_strlit("init_declarator");
    assert("do_statement"@.len() != "init_declarator"@.len());
    reveal_strlit("field_declaration");
    assert("do_statement"@.len() != "field_declaration"@.len());
    reveal_strlit("if_statement");
    assert("do_statement"@[0] != "if_statement"@[0]);
    reveal_strlit("else_clause");
    assert("do_statement"@.len() != "else_clause"@.len());
    reveal_strlit("while_statement");
    assert("do_statement"@.len() != "while_statement"@.len());
    reveal_strlit("for_statement");
    assert("do_statement"@.len() != "for_statement"@.len());
    reveal_strlit("for_range_loop");
    assert("do_statement"@.len() != "for_range_loop"@.len());
    assert(c_kind(t, n, "do_statement"@) == KindView::Loop);
}

/// In the C and C++ table, grammar kind `switch_statement` maps to `Match` for every node of every tree.
proof fn lemma_c_switch_statement_maps_to_match(t: &SyntaxTree, n: int)
    ensures
        mapped_kind(Language::C, t, n, "switch_statement"@) == KindView::Match,
        mapped_kind(Language::Cpp, t, n, "switch_statement"@) == KindView::Match,
{
    reveal_strlit("switch_statement");
    reveal_strlit("translation_unit");
    assert("switch_statement"@[0] != "translation_unit"@[0]);
    reveal_strlit("namespace_definition");
    assert("switch_statement"@.len() != "namespace_definition"@.len());
    reveal_strlit("class_specifier");
    assert("switch_statement"@.len() != "class_specifier"@.len());
    reveal_strlit("struct_specifier");
    assert("switch_statement"@[1] != "struct_specifier"@[1]);
    reveal_strlit("enum_specifier");
    assert("switch_statement"@.len() != "enum_specifier"@.len());
    reveal_strlit("function_definition");
    assert("switch_statement"@.len() != "function_definition"@.len());
    reveal_strlit("function_declarator");
    assert("switch_statement"@.len() != "function_declarator"@.len());
    reveal_strlit("lambda_expression");
    assert("switch_statement"@.len() != "lambda_expression"@.len());
    reveal_strlit("parameter_declaration");
    assert("switch_statement"@.len() != "parameter_declaration"@.len());
    reveal_strlit("compound_statement");
    assert("switch_statement"@.len() != "compound_statement"@.len());
    reveal_strlit("declaration");
    assert("switch_statement"@.len() != "declaration"@.len());
    reveal_strlit("init_declarator");
    assert("switch_statement"@.len() != "init_declarator"@.len());
    reveal_strlit("field_declaration");
    assert("switch_statement"@.len() != "field_declaration"@.len());
    reveal_strlit("if_statement");
    assert("switch_statement"@.len() != "if_statement"@.len());
    reveal_strlit("else_clause");
    assert("switch_statement"@.len() != "else_clause"@.len());
    reveal_strlit("while_statement");
    assert("switch_statement"@.len() != "while_statement"@.len());
    reveal_strlit("for_statement");
    assert("switch_statement"@.len() != "for_statement"@.len());
    reveal_strlit("for_range_loop");
    assert("switch_statement"@.len() != "for_range_loop"@.len());
    reveal_strlit("do_statement");
    assert("switch_statement"@.len() != "do_statement"@.len());
    assert(c_kind(t, n, "switch_statement"@) == KindView::Match);
}

/// In the C and C++ table, grammar kind `case_statement` maps to `MatchArm` for every node of every tree.
proof fn lemma_c_case_statement_maps_to_match_arm(t: &SyntaxTree, n: int)
    ensures
        mapped_kind(Language::C, t, n, "case_statement"@) == KindView::MatchArm,
        mapped_kind(Language::Cpp, t, n, "case_statement"@) == KindView::MatchArm,
{
    reveal_strlit("case_statement");
    reveal_strlit("translation_unit");
    assert("case_statement"@.len() != "translation_unit"@.len());
    reveal_strlit("namespace_definition");
    assert("case_statement"@.len() != "namespace_definition"@.len());
    reveal_strlit("class_specifier");
    assert("case_statement"@.len() != "class_specifier"@.len());
    reveal_strlit("struct_specifier");
    assert("case_statement"@.len() != "struct_specifier"@.len());
    reveal_strlit("enum_specifier");
    assert("case_statement"@[0] != "enum_specifier"@[0]);
    reveal_strlit("function_definition");
    assert("case_statement"@.len() != "function_definition"@.len());
    reveal_strlit("function_declarator");
    assert("case_statement"@.len() != "function_declarator"@.len());
    reveal_strlit("lambda_expression");
    assert("case_statement"@.len() != "lambda_expression"@.len());
    reveal_strlit("parameter_declaration");
    assert("case_statement"@.len() != "parameter_declaration"@.len());
    reveal_strlit("compound_statement");
    assert("case_statement"@.len() != "compound_statement"@.len());
    reveal_strlit("declaration");
    assert("case_statement"@.len() != "declaration"@.len());
    reveal_strlit("init_declarator");
    assert("case_statement"@.len() != "init_declarator"@.len());
    reveal_strlit("field_declaration");
    assert("case_statement"@.len() != "field_declaration"@.len());
    reveal_strlit("if_statement");
    assert("case_statement"@.len() != "if_statement"@.len());
    reveal_strlit("else_clause");
    assert("case_statement"@.len() != "else_clause"@.len());
    reveal_strlit("while_statement");
    assert("case_statement"@.len() != "while_statement"@.len());
    reveal_strlit("for_statement");
    assert("case_statement"@.len() != "for_statement"@.len());
    reveal_strlit("for_range_loop");
    assert("case_statement"@[0] != "for_range_loop"@[0]);
    reveal_strlit("do_statement");
    assert("case_statement"@.len() != "do_statement"@.len());
    reveal_strlit("switch_statement");
    assert("case_statement"@.len() != "switch_statement"@.len());
    assert(c_kind(t, n, "case_statement"@) == KindView::MatchArm);
}

/// In the C and C++ table, grammar kind `return_statement` maps to `Return` for every node of every tree.
proof fn lemma_c_return_statement_maps_to_return(t: &SyntaxTree, n: int)
    ensures
        mapped_kind(Language::C, t, n, "return_statement"@) == KindView::Return,
        mapped_kind(Language::Cpp, t, n, "return_statement"@) == KindView::Return,
{
    reveal_strlit("return_statement");
    reveal_strlit("translation_unit");
    assert("return_statement"@[0] != "translation_unit"@[0]);
    reveal_strlit("namespace_definition");
    assert("return_statement"@.len() != "namespace_definition"@.len());
    reveal_strlit("class_specifier");
    assert("return_statement"@.len() != "class_specifier"@.len());
    reveal_strlit("struct_specifier");
    assert("return_statement"@[0] != "struct_specifier"@[0]);
    reveal_strlit("enum_specifier");
    assert("return_statement"@.len() != "enum_specifier"@.len());
    reveal_strlit("function_definition");
    assert("return_statement"@.len() != "function_definition"@.len());
    reveal_strlit("function_declarator");
    assert("return_statement"@.len() != "function_declarator"@.len());
    reveal_strlit("lambda_expression");
    assert("return_statement"@.len() != "lambda_expression"@.len());
    reveal_strlit("parameter_declaration");
    assert("return_statement"@.len() != "parameter_declaration"@.len());
    reveal_strlit("compound_statement");
    assert("return_statement"@.len() != "compound_statement"@.len());
    reveal_strlit("declaration");
    assert("return_statement"@.len() != "declaration"@.len());
    reveal_strlit("init_declarator");
    assert("return_statement"@.len() != "init_declarator"@.len());
    reveal_strlit("field_declaration");
    assert("return_statement"@.len() != "field_declaration"@.len());
    reveal_strlit("if_statement");
    assert("return_statement"@.len() != "if_statement"@.len());
    reveal_strlit("else_clause");
    assert("return_statement"@.len() != "else_clause"@.len());
    reveal_strlit("while_statement");
    assert("return_statement"@.len() != "while_statement"@.len());
    reveal_strlit("for_statement");
    assert("return_statement"@.len() != "for_statement"@.len());
    reveal_strlit("for_range_loop");
    assert("return_statement"@.len() != "for_range_loop"@.len());
    reveal_strlit("do_statement");
    assert("return_statement"@.len() != "do_statement"@.len());
    reveal_strlit("switch_statement");
    assert("return_statement"@[0] != "switch_statement"@[0]);
    reveal_strlit("case_statement");
    assert("return_statement"@.len() != "case_statement"@.len());
    assert(c_kind(t, n, "return_statement"@) == KindView::Return);
}

/// In the C and C++ table, grammar kind `break_statement` maps to `Break` for every node of every tree.
proof fn lemma_c_break_statement_maps_to_break(t: &SyntaxTree, n: int)
    ensures
        mapped_kind(Language::C, t, n, "break_statement"@) == KindView::Break,
        mapped_kind(Language::Cpp, t, n, "break_statement"@) == KindView::Break,
{
    reveal_strlit("break_statement");
    reveal_strlit("translation_unit");
    assert("break_statement"@.len() != "translation_unit"@.len());
    reveal_strlit("namespace_definition");
    assert("break_statement"@.len() != "namespace_definition"@.len());
    reveal_strlit("class_specifier");
    assert("break_statement"@[0] != "class_specifier"@[0]);
    reveal_strlit("struct_specifier");
    assert("break_statement"@.len() != "struct_specifier"@.len());
    reveal_strlit("enum_specifier");
    assert("break_statement"@.len() != "enum_specifier"@.len());
    reveal_strlit("function_definition");
    assert("break_statement"@.len() != "function_definition"@.len());
    reveal_strlit("function_declarator");
    assert("break_statement"@.len() != "function_declarator"@.len());
    reveal_strlit("lambda_expression");
    assert("break_statement"@.len() != "lambda_expression"@.len());
    reveal_strlit("parameter_declaration");
    assert("break_statement"@.len() != "parameter_declaration"@.len());
    reveal_strlit("compound_statement");
    assert("break_statement"@.len() != "compound_statement"@.len());
    reveal_strlit("declaration");
    assert("break_statement"@.len() != "declaration"@.len());
    reveal_strlit("init_declarator");
    assert("break_statement"@[0] != "init_declarator"@[0]);
    reveal_strlit("field_declaration");
    assert("break_statement"@.len() != "field_declaration"@.len());
    reveal_strlit("if_statement");
    assert("break_statement"@.len() != "if_statement"@.len());
    reveal_strlit("else_clause");
    assert("break_statement"@.len() != "else_clause"@.len());
    reveal_strlit("while_statement");
    assert("break_statement"@[0] != "while_statement"@[0]);
    reveal_strlit("for_statement");
    assert("break_statement"@.len() != "for_statement"@.len());
    reveal_strlit("for_range_loop");
    assert("break_statement"@.len() != "for_range_loop"@.len());
    reveal_strlit("do_statement");
    assert("break_statement"@.len() != "do_statement"@.len());
    reveal_strlit("switch_statement");
    assert("break_statement"@.len() != "switch_statement"@.len());
    reveal_strlit("case_statement");
    assert("break_statement"@.len() != "case_statement"@.len());
    reveal_strlit("return_statement");
    assert("break_statement"@.len() != "return_statement"@.len());
    assert(c_kind(t, n, "break_statement"@) == KindView::Break);
}

/// In the C and C++ table, grammar kind `continue_statement` maps to `Continue` for every node of every tree.
proof fn lemma_c_continue_statement_maps_to_continue(t: &SyntaxTree, n: int)
    ensures
        mapped_kind(Language::C, t, n, "continue_statement"@) == KindView::Continue,
        mapped_kind(Language::Cpp, t, n, "continue_statement"@) == KindView::Continue,
{
    reveal_strlit("continue_statement");
    reveal_strlit("translation_unit");
    assert("continue_statement"@.len() != "translation_unit"@.len());
    reveal_strlit("namespace_definition");
    assert("continue_statement"@.len() != "namespace_definition"@.len());
    reveal_strlit("class_specifier");
    assert("continue_statement"@.len() != "class_specifier"@.len());
    reveal_strlit("struct_specifier");
    assert("continue_statement"@.len() != "struct_specifier"@.len());
    reveal_strlit("enum_specifier");
    assert("continue_statement"@.len() != "enum_specifier"@.len());
    reveal_strlit("function_definition");
    assert("continue_statement"@.len() != "function_definition"@.len());
    reveal_strlit("function_declarator");
    assert("continue_statement"@.len() != "function_declarator"@.len());
    reveal_strlit("lambda_expression");
    assert("continue_statement"@.len() != "lambda_expression"@.len());
    reveal_strlit("parameter_declaration");
    assert("continue_statement"@.len() != "parameter_declaration"@.len());
    reveal_strlit("compound_statement");
    assert("continue_statement"@[2] != "compound_statement"@[2]);
    reveal_strlit("declaration");
    assert("continue_statement"@.len() != "declaration"@.len());
    reveal_strlit("init_declarator");
    assert("continue_statement"@.len() != "init_declarator"@.len());
    reveal_strlit("field_declaration");
    assert("continue_statement"@.len() != "field_declaration"@.len());
    reveal_strlit("if_statement");
    assert("continue_statement"@.len() != "if_statement"@.len());
    reveal_strlit("else_clause");
    assert("continue_statement"@.len() != "else_clause"@.len());
    reveal_strlit("while_statement");
    assert("continue_statement"@.len() != "while_statement"@.len());
    reveal_strlit("for_statement");
    assert("continue_statement"@.len() != "for_statement"@.len());
    reveal_strlit("for_range_loop");
    assert("continue_statement"@.len() != "for_range_loop"@.len());
    reveal_strlit("do_statement");
    assert("continue_statement"@.len() != "do_statement"@.len());
    reveal_strlit("switch_statement");
    assert("continue_statement"@.len() != "switch_statement"@.len());
    reveal_strlit("case_statement");
    assert("continue_statement"@.len() != "case_statement"@.len());
    reveal_strlit("return_statement");
    assert("continue_statement"@.len() != "return_statement"@.len());
    reveal_strlit("break_statement");
    assert("continue_statement"@.len() != "break_statement"@.len());
    assert(c_kind(t, n, "continue_statement"@) == KindView::Continue);
}

/// In the C and C++ table, grammar kind `try_statement` maps to `Try` for every node of every tree.
proof fn lemma_c_try_statement_maps_to_try(t: &SyntaxTree, n: int)
    ensures
        mapped_kind(Language::C, t, n, "try_statement"@) == KindView::Try,
        mapped_kind(Language::Cpp, t, n, "try_statement"@) == KindView::Try,
{
    reveal_strlit("try_statement");
    reveal_strlit("translation_unit");
    assert("try_statement"@.len() != "translation_unit"@.len());
    reveal_strlit("namespace_definition");
    assert("try_statement"@.len() != "namespace_definition"@.len());
    reveal_strlit("class_specifier");
    assert("try_statement"@.len() != "class_specifier"@.len());
    reveal_strlit("struct_specifier");
    assert("try_statement"@.len() != "struct_specifier"@.len());
    reveal_strlit("enum_specifier");
    assert("try_statement"@.len() != "enum_specifier"@.len());
    reveal_strlit("function_definition");
    assert("try_statement"@.len() != "function_definition"@.len());
    reveal_strlit("function_declarator");
    assert("try_statement"@.len() != "function_declarator"@.len());
    reveal_strlit("lambda_expression");
    assert("try_statement"@.len() != "lambda_expression"@.len());
    reveal_strlit("parameter_declaration");
    assert("try_statement"@.len() != "parameter_declaration"@.len());
    reveal_strlit("compound_statement");
    assert("try_statement"@.len() != "compound_statement"@.len());
    reveal_strlit("declaration");
    assert("try_statement"@.len() != "declaration"@.len());
    reveal_strlit("init_declarator");
    assert("try_statement"@.len() != "init_declarator"@.len());
    reveal_strlit("field_declaration");
    assert("try_statement"@.len() != "field_declaration"@.len());
    reveal_strlit("if_statement");
    assert("try_statement"@.len() != "if_statement"@.len());
    reveal_strlit("else_clause");
    assert("try_statement"@.len() != "else_clause"@.len());
    reveal_strlit("while_statement");
    assert("try_statement"@.len() != "while_statement"@.len());
    reveal_strlit("for_statement");
    assert("try_statement"@[0] != "for_statement"@[0]);
    reveal_strlit("for_range_loop");
    assert("try_statement"@.len() != "for_range_loop"@.len());
    reveal_strlit("do_statement");
    assert("try_statement"@.len() != "do_statement"@.len());
    reveal_strlit("switch_statement");
    assert("try_statement"@.len() != "switch_statement"@.len());
    reveal_strlit("case_statement");
    assert("try_statement"@.len() != "case_statement"@.len());
    reveal_strlit("return_statement");
    assert("try_statement"@.len() != "return_statement"@.len());
    reveal_strlit("break_statement");
    assert("try_statement"@.len() != "break_statement"@.len());
    reveal_strlit("continue_statement");
    assert("try_statement"@.len() != "continue_statement"@.len());
    assert(c_kind(t, n, "try_statement"@) == KindView::Try);
}

/// In the C and C++ table, grammar kind `catch_clause` maps to `Catch` for every node of every tree.
proof fn lemma_c_catch_clause_maps_to_catch(t: &SyntaxTree, n: int)
    ensures
        mapped_kind(Language::C, t, n, "catch_clause"@) == KindView::Catch,
        mapped_kind(Language::Cpp, t, n, "catch_clause"@) == KindView::Catch,
{
    reveal_strlit("catch_clause");
    reveal_strlit("translation_unit");
    assert("catch_clause"@.len() != "translation_unit"@.len());
    reveal_strlit("namespace_definition");
    assert("catch_clause"@.len() != "namespace_definition"@.len());
    reveal_strlit("class_specifier");
    assert("catch_clause"@.len() != "class_specifier"@.len());
    reveal_strlit("struct_specifier");
    assert("catch_clause"@.len() != "struct_specifier"@.len());
    reveal_strlit("enum_specifier");
    assert("catch_clause"@.len() != "enum_specifier"@.len());
    reveal_strlit("function_definition");
    assert("catch_clause"@.len() != "function_definition"@.len());
    reveal_strlit("function_declarator");
    assert("catch_clause"@.len() != "function_declarator"@.len());
    reveal_strlit("lambda_expression");
    assert("catch_clause"@.len() != "lambda_expression"@.len());
    reveal_strlit("parameter_declaration");
    assert("catch_clause"@.len() != "parameter_declaration"@.len());
    reveal_strlit("compound_statement");
    assert("catch_clause"@.len() != "compound_statement"@.len());
    reveal_strlit("declaration");
    assert("catch_clause"@.len() != "declaration"@.len());
    reveal_strlit("init_declarator");
    assert("catch_clause"@.len() != "init_declarator"@.len());
    reveal_strlit("field_declaration");
    assert("catch_clause"@.len() != "field_declaration"@.len());
    reveal_strlit("if_statement");
    assert("catch_clause"@[0] != "if_statement"@[0]);
    reveal_strlit("else_clause");
    assert("catch_clause"@.len() != "else_clause"@.len());
    reveal_strlit("while_statement");
    assert("catch_clause"@.len() != "while_statement"@.len());
    reveal_strlit("for_statement");
    assert("catch_clause"@.len() != "for_statement"@.len());
    reveal_strlit("for_range_loop");
    assert("catch_clause"@.len() != "for_range_loop"@.len());
    reveal_strlit("do_statement");
    assert("catch_clause"@[0] != "do_statement"@[0]);
    reveal_strlit("switch_statement");
    assert("catch_clause"@.len() != "switch_statement"@.len());
    reveal_strlit("case_statement");
    assert("catch_clause"@.len() != "case_statement"@.len());
    reveal_strlit("return_statement");
    assert("catch_clause"@.len() != "return_statement"@.len());
    reveal_strlit("break_statement");
    assert("catch_clause"@.len() != "break_statement"@.len());
    reveal_strlit("continue_statement");
    assert("catch_clause"@.len() != "continue_statement"@.len());
    reveal_strlit("try_statement");
    assert("catch_clause"@.len() != "try_statement"@.len());
    assert(c_kind(t, n, "catch_clause"@) == KindView::Catch);
}

/// In the C and C++ table, grammar kind `throw_statement` maps to `Throw` for every node of every tree.
proof fn lemma_c_throw_statement_maps_to_throw(t: &SyntaxTree, n: int)
    ensures
        mapped_kind(Language::C, t, n, "throw_statement"@) == KindView::Throw,
        mapped_kind(Language::Cpp, t, n, "throw_statement"@) == KindView::Throw,
{
    reveal_strlit("throw_statement");
    reveal_strlit("translation_unit");
    assert("throw_statement"@.len() != "translation_unit"@.len());
    reveal_strlit("namespace_definition");
    assert("throw_statement"@.len() != "namespace_definition"@.len());
    reveal_strlit("class_specifier");
    assert("throw_statement"@[0] != "class_specifier"@[0]);
    reveal_strlit("struct_specifier");
    assert("throw_statement"@.len() != "struct_specifier"@.len());
    reveal_strlit("enum_specifier");
    assert("throw_statement"@.len() != "enum_specifier"@.len());
    reveal_strlit("function_definition");
    assert("throw_statement"@.len() != "function_definition"@.len());
    reveal_strlit("function_declarator");
    assert("throw_statement"@.len() != "function_declarator"@.len());
    reveal_strlit("lambda_expression");
    assert("throw_statement"@.len() != "lambda_expression"@.len());
    reveal_strlit("parameter_declaration");
    assert("throw_statement"@.len() != "parameter_declaration"@.len());
    reveal_strlit("compound_statement");
    assert("throw_statement"@.len() != "compound_statement"@.len());
    reveal_strlit("declaration");
    assert("throw_statement"@.len() != "declaration"@.len());
    reveal_strlit("init_declarator");
    assert("throw_statement"@[0] != "init_declarator"@[0]);
    reveal_strlit("field_declaration");
    assert("throw_statement"@.len() != "field_declaration"@.len());
    reveal_strlit("if_statement");
    assert("throw_statement"@.len() != "if_statement"@.len());
    reveal_strlit("else_clause");
    assert("throw_statement"@.len() != "else_clause"@.len());
    reveal_strlit("while_statement");
    assert("throw_statement"@[0] != "while_statement"@[0]);
    reveal_strlit("for_statement");
    assert("throw_statement"@.len() != "for_statement"@.len());
    reveal_strlit("for_range_loop");
    assert("throw_statement"@.len() != "for_range_loop"@.len());
    reveal_strlit("do_statement");
    assert("throw_statement"@.len() != "do_statement"@.len());
    reveal_strlit("switch_statement");
    assert("throw_statement"@.len() != "switch_statement"@.len());
    reveal_strlit("case_statement");
    assert("throw_statement"@.len() != "case_statement"@.len());
    reveal_strlit("return_statement");
    assert("throw_statement"@.len() != "return_statement"@.len());
    reveal_strlit("break_statement");
    assert("throw_statement"@[0] != "break_statement"@[0]);
    reveal_strlit("continue_statement");
    assert("throw_statement"@.len() != "continue_statement"@.len());
    reveal_strlit("try_statement");
    assert("throw_statement"@.len() != "try_statement"@.len());
    reveal_strlit("catch_clause");
    assert("throw_statement"@.len() != "catch_clause"@.len());
    assert(c_kind(t, n, "throw_statement"@) == KindView::Throw);
}

/// In the Ruby table, grammar kind `if` maps to `If` for every node of every tree.
proof fn lemma_ruby_if_maps_to_if(t: &SyntaxTree, n: int)
    ensures
        mapped_kind(Language::Ruby, t, n, "if"@) == KindView::If,
{
    reveal_strlit("if");
    reveal_strlit("program");
    assert("if"@.len() != "program"@.len());
    reveal_strlit("module");
    assert("if"@.len() != "module"@.len());
    reveal_strlit("class");
    assert("if"@.len() != "class"@.len());
    reveal_strlit("method");
    assert("if"@.len() != "method"@.len());
    reveal_strlit("singleton_method");
    assert("if"@.len() != "singleton_method"@.len());
    reveal_strlit("lambda");
    assert("if"@.len() != "lambda"@.len());
    reveal_strlit("block");
    assert("if"@.len() != "block"@.len());
    reveal_strlit("do_block");
    assert("if"@.len() != "do_block"@.len());
    reveal_strlit("method_parameters");
    assert("if"@.len() != "method_parameters"@.len());
    reveal_strlit("block_parameters");
    assert("if"@.len() != "block_parameters"@.len());
    reveal_strlit("body_statement");
    assert("if"@.len() != "body_statement"@.len());
    reveal_strlit("assignment");
    assert("if"@.len() != "assignment"@.len());
    assert(ruby_kind(t, n, "if"@) == KindView::If);
}

/// In the Ruby table, grammar kind `unless` maps to `If` for every node of every tree.
proof fn lemma_ruby_unless_maps_to_if(t: &SyntaxTree, n: int)
    ensures
        mapped_kind(Language::Ruby, t, n, "unless"@) == KindView::If,
{
    reveal_strlit("unless");
    reveal_strlit("program");
    assert("unless"@.len() != "program"@.len());
    reveal_strlit("module");
    assert("unless"@[0] != "module"@[0]);
    reveal_strlit("class");
    assert("unless"@.len() != "class"@.len());
    reveal_strlit("method");
    assert("unless"@[0] != "method"@[0]);
    reveal_strlit("singleton_method");
    assert("unless"@.len() != "singleton_method"@.len());
    reveal_strlit("lambda");
    assert("unless"@[0] != "lambda"@[0]);
    reveal_strlit("block");
    assert("unless"@.len() != "block"@.len());
    reveal_strlit("do_block");
    assert("unless"@.len() != "do_block"@.len());
    reveal_strlit("method_parameters");
    assert("unless"@.len() != "method_parameters"@.len());
    reveal_strlit("block_parameters");
    assert("unless"@.len() != "block_parameters"@.len());
    reveal_strlit("body_statement");
    assert("unless"@.len() != "body_statement"@.len());
    reveal_strlit("assignment");
    assert("unless"@.len() != "assignment"@.len());
    assert(ruby_kind(t, n, "unless"@) == KindView::If);
}

/// In the Ruby table, grammar kind `elsif` maps to `Else` for every node of every tree.
proof fn lemma_ruby_elsif_maps_to_else(t: &SyntaxTree, n: int)
    ensures
        mapped_kind(Language::Ruby, t, n, "elsif"@) == KindView::Else,
{
    reveal_strlit("elsif");
    reveal_strlit("program");
    assert("elsif"@.len() != "program"@.len());
    reveal_strlit("module");
    assert("elsif"@.len() != "module"@.len());
    reveal_strlit("class");
    assert("elsif"@[0] != "class"@[0]);
    reveal_strlit("method");
    assert("elsif"@.len() != "method"@.len());
    reveal_strlit("singleton_method");
    assert("elsif"@.len() != "singleton_method"@.len());
    reveal_strlit("lambda");
    assert("elsif"@.len() != "lambda"@.len());
    reveal_strlit("block");
    assert("elsif"@[0] != "block"@[0]);
    reveal_strlit("do_block");
    assert("elsif"@.len() != "do_block"@.len());
    reveal_strlit("method_parameters");
    assert("elsif"@.len() != "method_parameters"@.len());
    reveal_strlit("block_parameters");
    assert("elsif"@.len() != "block_parameters"@.len());
    reveal_strlit("body_statement");
    assert("elsif"@.len() != "body_statement"@.len());
    reveal_strlit("assignment");
    assert("elsif"@.len() != "assignment"@.len());
    reveal_strlit("if");
    assert("elsif"@.len() != "if"@.len());
    reveal_strlit("unless");
    assert("elsif"@.len() != "unless"@.len());
    assert(ruby_kind(t, n, "elsif"@) == KindView::Else);
}

/// In the Ruby table, grammar kind `else` maps to `Else` for every node of every tree.
proof fn lemma_ruby_else_maps_to_else(t: &SyntaxTree, n: int)
    ensures
        mapped_kind(Language::Ruby, t, n, "else"@) == KindView::Else,
{
    reveal_strlit("else");
    reveal_strlit("program");
    assert("else"@.len() != "program"@.len());
    reveal_strlit("module");
    assert("else"@.len() != "module"@.len());
    reveal_strlit("class");
    assert("else"@.len() != "class"@.len());
    reveal_strlit("method");
    assert("else"@.len() != "method"@.len());
    reveal_strlit("singleton_method");
    assert("else"@.len() != "singleton_method"@.len());
    reveal_strlit("lambda");
    assert("else"@.len() != "lambda"@.len());
    reveal_strlit("block");
    assert("else"@.len() != "block"@.len());
    reveal_strlit("do_block");
    assert("else"@.len() != "do_block"@.len());
    reveal_strlit("method_parameters");
    assert("else"@.len() != "method_parameters"@.len());
    reveal_strlit("block_parameters");
    assert("else"@.len() != "block_parameters"@.len());
    reveal_strlit("body_statement");
    assert("else"@.len() != "body_statement"@.len());
    reveal_strlit("assignment");
    assert("else"@.len() != "assignment"@.len());
    reveal_strlit("if");
    assert("else"@.len() != "if"@.len());
    reveal_strlit("unless");
    assert("else"@.len() != "unless"@.len());
    assert(ruby_kind(t, n, "else"@) == KindView::Else);
}

/// In the Ruby table, grammar kind `while` maps to `While` for every node of every tree.
proof fn lemma_ruby_while_maps_to_while(t: &SyntaxTree, n: int)
    ensures
        mapped_kind(Language::Ruby, t, n, "while"@) == KindView::While,
{
    reveal_strlit("while");
    reveal_strlit("program");
    assert("while"@.len() != "program"@.len());
    reveal_strlit("module");
    assert("while"@.len() != "module"@.len());
    reveal_strlit("class");
    assert("while"@[0] != "class"@[0]);
    reveal_strlit("method");
    assert("while"@.len() != "method"@.len());
    reveal_strlit("singleton_method");
    assert("while"@.len() != "singleton_method"@.len());
    reveal_strlit("lambda");
    assert("while"@.len() != "lambda"@.len());
    reveal_strlit("block");
    assert("while"@[0] != "block"@[0]);
    reveal_strlit("do_block");
    assert("while"@.len() != "do_block"@.len());
    reveal_strlit("method_parameters");
    assert("while"@.len() != "method_parameters"@.len());
    reveal_strlit("block_parameters");
    assert("while"@.len() != "block_parameters"@.len());
    reveal_strlit("body_statement");
    assert("while"@.len() != "body_statement"@.len());
    reveal_strlit("assignment");
    assert("while"@.len() != "assignment"@.len());
    reveal_strlit("if");
    assert("while"@.len() != "if"@.len());
    reveal_strlit("unless");
    assert("while"@.len() != "unless"@.len());
    reveal_strlit("elsif");
    assert("while"@[0] != "elsif"@[0]);
    reveal_strlit("else");
    assert("while"@.len() != "else"@.len());
    assert(ruby_kind(t, n, "while"@) == KindView::While);
}

/// In the Ruby table, grammar kind `until` maps to `While` for every node of every tree.
proof fn lemma_ruby_until_maps_to_while(t: &SyntaxTree, n: int)
    ensures
        mapped_kind(Language::Ruby, t, n, "until"@) == KindView::While,
{
    reveal_strlit("until");
    reveal_strlit("program");
    assert("until"@.len() != "program"@.len());
    reveal_strlit("module");
    assert("until"@.len() != "module"@.len());
    reveal_strlit("class");
    assert("until"@[0] != "class"@[0]);
    reveal_strlit("method");
    assert("until"@.len() != "method"@.len());
    reveal_strlit("singleton_method");
    assert("until"@.len() != "singleton_method"@.len());
    reveal_strlit("lambda");
    assert("until"@.len() != "lambda"@.len());
    reveal_strlit("block");
    assert("until"@[0] != "block"@[0]);
    reveal_strlit("do_block");
    assert("until"@.len() != "do_block"@.len());
    reveal_strlit("method_parameters");
    assert("until"@.len() != "method_parameters"@.len());
    reveal_strlit("block_parameters");
    assert("until"@.len() != "block_parameters"@.len());
    reveal_strlit("body_statement");
    assert("until"@.len() != "body_statement"@.len());
    reveal_strlit("assignment");
    assert("until"@.len() != "assignment"@.len());
    reveal_strlit("if");
    assert("until"@.len() != "if"@.len());
    reveal_strlit("unless");
    assert("until"@.len() != "unless"@.len());
    reveal_strlit("elsif");
    assert("until"@[0] != "elsif"@[0]);
    reveal_strlit("else");
    assert("until"@.len() != "else"@.len());
    assert(ruby_kind(t, n, "until"@) == KindView::While);
}

/// In the Ruby table, grammar kind `for` maps to `For` for every node of every tree.
proof fn lemma_ruby_for_maps_to_for(t: &SyntaxTree, n: int)
    ensures
        mapped_kind(Language::Ruby, t, n, "for"@) == KindView::For,
{
    reveal_strlit("for");
    reveal_strlit("program");
    assert("for"@.len() != "program"@.len());
    reveal_strlit("module");
    assert("for"@.len() != "module"@.len());
    reveal_strlit("class");
    assert("for"@.len() != "class"@.len());
    reveal_strlit("method");
    assert("for"@.len() != "method"@.len());
    reveal_strlit("singleton_method");
    assert("for"@.len() != "singleton_method"@.len());
    reveal_strlit("lambda");
    assert("for"@.len() != "lambda"@.len());
    reveal_strlit("block");
    assert("for"@.len() != "block"@.len());
    reveal_strlit("do_block");
    assert("for"@.len() != "do_block"@.len());
    reveal_strlit("method_parameters");
    assert("for"@.len() != "method_parameters"@.len());
    reveal_strlit("block_parameters");
    assert("for"@.len() != "block_parameters"@.len());
    reveal_strlit("body_statement");
    assert("for"@.len() != "body_statement"@.len());
    reveal_strlit("assignment");
    assert("for"@.len() != "assignment"@.len());
    reveal_strlit("if");
    assert("for"@.len() != "if"@.len());
    reveal_strlit("unless");
    assert("for"@.len() != "unless"@.len());
    reveal_strlit("elsif");
    assert("for"@.len() != "elsif"@.len());
    reveal_strlit("else");
    assert("for"@.len() != "else"@.len());
    reveal_strlit("while");
    assert("for"@.len() != "while"@.len());
    reveal_strlit("until");
    assert("for"@.len() != "until"@.len());
    assert(ruby_kind(t, n, "for"@) == KindView::For);
}

/// In the Ruby table, grammar kind `case` maps to `Match` for every node of every tree.
proof fn lemma_ruby_case_maps_to_match(t: &SyntaxTree, n: int)
    ensures
        mapped_kind(Language::Ruby, t, n, "case"@) == KindView::Match,
{
    reveal_strlit("case");
    reveal_strlit("program");
    assert("case"@.len() != "program"@.len());
    reveal_strlit("module");
    assert("case"@.len() != "module"@.len());
    reveal_strlit("class");
    assert("case"@.len() != "class"@.len());
    reveal_strlit("method");
    assert("case"@.len() != "method"@.len());
    reveal_strlit("singleton_method");
    assert("case"@.len() != "singleton_method"@.len());
    reveal_strlit("lambda");
    assert("case"@.len() != "lambda"@.len());
    reveal_strlit("block");
    assert("case"@.len() != "block"@.len());
    reveal_strlit("do_block");
    assert("case"@.len() != "do_block"@.len());
    reveal_strlit("method_parameters");
    assert("case"@.len() != "method_parameters"@.len());
    reveal_strlit("block_parameters");
    assert("case"@.len() != "block_parameters"@.len());
    reveal_strlit("body_statement");
    assert("case"@.len() != "body_statement"@.len());
    reveal_strlit("assignment");
    assert("case"@.len() != "assignment"@.len());
    reveal_strlit("if");
    assert("case"@.len() != "if"@.len());
    reveal_strlit("unless");
    assert("case"@.len() != "unless"@.len());
    reveal_strlit("elsif");
    assert("case"@.len() != "elsif"@.len());
    reveal_strlit("else");
    assert("case"@[0] != "else"@[0]);
    reveal_strlit("while");
    assert("case"@.len() != "while"@.len());
    reveal_strlit("until");
    assert("case"@.len() != "until"@.len());
    reveal_strlit("for");
    assert("case"@.len() != "for"@.len());
    assert(ruby_kind(t, n, "case"@) == KindView::Match);
}

/// In the Ruby table, grammar kind `when` maps to `MatchArm` for every node of every tree.
proof fn lemma_ruby_when_maps_to_match_arm(t: &SyntaxTree, n: int)
    ensures
        mapped_kind(Language::Ruby, t, n, "when"@) == KindView::MatchArm,
{
    reveal_strlit("when");
    reveal_strlit("program");
    assert("when"@.len() != "program"@.len());
    reveal_strlit("module");
    assert("when"@.len() != "module"@.len());
    reveal_strlit("class");
    assert("when"@.len() != "class"@.len());
    reveal_strlit("method");
    assert("when"@.len() != "method"@.len());
    reveal_strlit("singleton_method");
    assert("when"@.len() != "singleton_method"@.len());
    reveal_strlit("lambda");
    assert("when"@.len() != "lambda"@.len());
    reveal_strlit("block");
    assert("when"@.len() != "block"@.len());
    reveal_strlit("do_block");
    assert("when"@.len() != "do_block"@.len());
    reveal_strlit("method_parameters");
    assert("when"@.len() != "method_parameters"@.len());
    reveal_strlit("block_parameters");
    assert("when"@.len() != "block_parameters"@.len());
    reveal_strlit("body_statement");
    assert("when"@.len() != "body_statement"@.len());
    reveal_strlit("assignment");
    assert("when"@.len() != "assignment"@.len());
    reveal_strlit("if");
    assert("when"@.len() != "if"@.len());
    reveal_strlit("unless");
    assert("when"@.len() != "unless"@.len());
    reveal_strlit("elsif");
    assert("when"@.len() != "elsif"@.len());
    reveal_strlit("else");
    assert("when"@[0] != "else"@[0]);
    reveal_strlit("while");
    assert("when"@.len() != "while"@.len());
    reveal_strlit("until");
    assert("when"@.len() != "until"@.len());
    reveal_strlit("for");
    assert("when"@.len() != "for"@.len());
    reveal_strlit("case");
    assert("when"@[0] != "case"@[0]);
    assert(ruby_kind(t, n, "when"@) == KindView::MatchArm);
}

/// In the Ruby table, grammar kind `return` maps to `Return` for every node of every tree.
proof fn lemma_ruby_return_maps_to_return(t: &SyntaxTree, n: int)
    ensures
        mapped_kind(Language::Ruby, t, n, "return"@) == KindView::Return,
{
    reveal_strlit("return");
    reveal_strlit("program");
    assert("return"@.len() != "program"@.len());
    reveal_strlit("module");
    assert("return"@[0] != "module"@[0]);
    reveal_strlit("class");
    assert("return"@.len() != "class"@.len());
    reveal_strlit("method");
    assert("return"@[0] != "method"@[0]);
    reveal_strlit("singleton_method");
    assert("return"@.len() != "singleton_method"@.len());
    reveal_strlit("lambda");
    assert("return"@[0] != "lambda"@[0]);
    reveal_strlit("block");
    assert("return"@.len() != "block"@.len());
    reveal_strlit("do_block");
    assert("return"@.len() != "do_block"@.len());
    reveal_strlit("method_parameters");
    assert("return"@.len() != "method_parameters"@.len());
    reveal_strlit("block_parameters");
    assert("return"@.len() != "block_parameters"@.len());
    reveal_strlit("body_statement");
    assert("return"@.len() != "body_statement"@.len());
    reveal_strlit("assignment");
    assert("return"@.len() != "assignment"@.len());
    reveal_strlit("if");
    assert("return"@.len() != "if"@.len());
    reveal_strlit("unless");
    assert("return"@[0] != "unless"@[0]);
    reveal_strlit("elsif");
    assert("return"@.len() != "elsif"@.len());
    reveal_strlit("else");
    assert("return"@.len() != "else"@.len());
    reveal_strlit("while");
    assert("return"@.len() != "while"@.len());
    reveal_strlit("until");
    assert("return"@.len() != "until"@.len());
    reveal_strlit("for");
    assert("return"@.len() != "for"@.len());
    reveal_strlit("case");
    assert("return"@.len() != "case"@.len());
    reveal_strlit("when");
    assert("return"@.len() != "when"@.len());
    assert(ruby_kind(t, n, "return"@) == KindView::Return);
}

/// In the Ruby table, grammar kind `break` maps to `Break` for every node of every tree.
proof fn lemma_ruby_break_maps_to_break(t: &SyntaxTree, n: int)
    ensures
        mapped_kind(Language::Ruby, t, n, "break"@) == KindView::Break,
{
    reveal_strlit("break");
    reveal_strlit("program");
    assert("break"@.len() != "program"@.len());
    reveal_strlit("module");
    assert("break"@.len() != "module"@.len());
    reveal_strlit("class");
    assert("break"@[0] != "class"@[0]);
    reveal_strlit("method");
    assert("break"@.len() != "method"@.len());
    reveal_strlit("singleton_method");
    assert("break"@.len() != "singleton_method"@.len());
    reveal_strlit("lambda");
    assert("break"@.len() != "lambda"@.len());
    reveal_strlit("block");
    assert("break"@[1] != "block"@[1]);
    reveal_strlit("do_block");
    assert("break"@.len() != "do_block"@.len());
    reveal_strlit("method_parameters");
    assert("break"@.len() != "method_parameters"@.len());
    reveal_strlit("block_parameters");
    assert("break"@.len() != "block_parameters"@.len());
    reveal_strlit("body_statement");
    assert("break"@.len() != "body_statement"@.len());
    reveal_strlit("assignment");
    assert("break"@.len() != "assignment"@.len());
    reveal_strlit("if");
    assert("break"@.len() != "if"@.len());
    reveal_strlit("unless");
    assert("break"@.len() != "unless"@.len());
    reveal_strlit("elsif");
    assert("break"@[0] != "elsif"@[0]);
    reveal_strlit("else");
    assert("break"@.len() != "else"@.len());
    reveal_strlit("while");
    assert("break"@[0] != "while"@[0]);
    reveal_strlit("until");
    assert("break"@[0] != "until"@[0]);
    reveal_strlit("for");
    assert("break"@.len() != "for"@.len());
    reveal_strlit("case");
    assert("break"@.len() != "case"@.len());
    reveal_strlit("when");
    assert("break"@.len() != "when"@.len());
    reveal_strlit("return");
    assert("break"@.len() != "return"@.len());
    assert(ruby_kind(t, n, "break"@) == KindView::Break);
}

/// In the Ruby table, grammar kind `next` maps to `Continue` for every node of every tree.
proof fn lemma_ruby_next_maps_to_continue(t: &SyntaxTree, n: int)
    ensures
        mapped_kind(Language::Ruby, t, n, "next"@) == KindView::Continue,
{
    reveal_strlit("next");
    reveal_strlit("program");
    assert("next"@.len() != "program"@.len());
    reveal_strlit("module");
    assert("next"@.len() != "module"@.len());
    reveal_strlit("class");
    assert("next"@.len() != "class"@.len());
    reveal_strlit("method");
    assert("next"@.len() != "method"@.len());
    reveal_strlit("singleton_method");
    assert("next"@.len() != "singleton_method"@.len());
    reveal_strlit("lambda");
    assert("next"@.len() != "lambda"@.len());
    reveal_strlit("block");
    assert("next"@.len() != "block"@.len());
    reveal_strlit("do_block");
    assert("next"@.len() != "do_block"@.len());
    reveal_strlit("method_parameters");
    assert("next"@.len() != "method_parameters"@.len());
    reveal_strlit("block_parameters");
    assert("next"@.len() != "block_parameters"@.len());
    reveal_strlit("body_statement");
    assert("next"@.len() != "body_statement"@.len());
    reveal_strlit("assignment");
    assert("next"@.len() != "assignment"@.len());
    reveal_strlit("if");
    assert("next"@.len() != "if"@.len());
    reveal_strlit("unless");
    assert("next"@.len() != "unless"@.len());
    reveal_strlit("elsif");
    assert("next"@.len() != "elsif"@.len());
    reveal_strlit("else");
    assert("next"@[0] != "else"@[0]);
    reveal_strlit("while");
    assert("next"@.len() != "while"@.len());
    reveal_strlit("until");
    assert("next"@.len() != "until"@.len());
    reveal_strlit("for");
    assert("next"@.len() != "for"@.len());
    reveal_strlit("case");
    assert("next"@[0] != "case"@[0]);
    reveal_strlit("when");
    assert("next"@[0] != "when"@[0]);
    reveal_strlit("return");
    assert("next"@.len() != "return"@.len());
    reveal_strlit("break");
    assert("next"@.len() != "break"@.len());
    assert(ruby_kind(t, n, "next"@) == KindView::Continue);
}

/// In the Ruby table, grammar kind `begin` maps to `Try` for every node of every tree.
proof fn lemma_ruby_begin_maps_to_try(t: &SyntaxTree, n: int)
    ensures
        mapped_kind(Language::Ruby, t, n, "begin"@) == KindView::Try,
{
    reveal_strlit("begin");
    reveal_strlit("program");
    assert("begin"@.len() != "program"@.len());
    reveal_strlit("module");
    assert("begin"@.len() != "module"@.len());
    reveal_strlit("class");
    assert("begin"@[0] != "class"@[0]);
    reveal_strlit("method");
    assert("begin"@.len() != "method"@.len());
    reveal_strlit("singleton_method");
    assert("begin"@.len() != "singleton_method"@.len());
    reveal_strlit("lambda");
    assert("begin"@.len() != "lambda"@.len());
    reveal_strlit("block");
    assert("begin"@[1] != "block"@[1]);
    reveal_strlit("do_block");
    assert("begin"@.len() != "do_block"@.len());
    reveal_strlit("method_parameters");
    assert("begin"@.len() != "method_parameters"@.len());
    reveal_strlit("block_parameters");
    assert("begin"@.len() != "block_parameters"@.len());
    reveal_strlit("body_statement");
    assert("begin"@.len() != "body_statement"@.len());
    reveal_strlit("assignment");
    assert("begin"@.len() != "assignment"@.len());
    reveal_strlit("if");
    assert("begin"@.len() != "if"@.len());
    reveal_strlit("unless");
    assert("begin"@.len() != "unless"@.len());
    reveal_strlit("elsif");
    assert("begin"@[0] != "elsif"@[0]);
    reveal_strlit("else");
    assert("begin"@.len() != "else"@.len());
    reveal_strlit("while");
    assert("begin"@[0] != "while"@[0]);
    reveal_strlit("until");
    assert("begin"@[0] != "until"@[0]);
    reveal_strlit("for");
    assert("begin"@.len() != "for"@.len());
    reveal_strlit("case");
    assert("begin"@.len() != "case"@.len());
    reveal_strlit("when");
    assert("begin"@.len() != "when"@.len());
    reveal_strlit("return");
    assert("begin"@.len() != "return"@.len());
    reveal_strlit("break");
    assert("begin"@[1] != "break"@[1]);
    reveal_strlit("next");
    assert("begin"@.len() != "next"@.len());
    assert(ruby_kind(t, n, "begin"@) == KindView::Try);
}

/// In the Ruby table, grammar kind `rescue` maps to `Catch` for every node of every tree.
proof fn lemma_ruby_rescue_maps_to_catch(t: &SyntaxTree, n: int)
    ensures
        mapped_kind(Language::Ruby, t, n, "rescue"@) == KindView::Catch,
{
    reveal_strlit("rescue");
    reveal_strlit("program");
    assert("rescue"@.len() != "program"@.len());
    reveal_strlit("module");
    assert("rescue"@[0] != "module"@[0]);
    reveal_strlit("class");
    assert("rescue"@.len() != "class"@.len());
    reveal_strlit("method");
    assert("rescue"@[0] != "method"@[0]);
    reveal_strlit("singleton_method");
    assert("rescue"@.len() != "singleton_method"@.len());
    reveal_strlit("lambda");
    assert("rescue"@[0] != "lambda"@[0]);
    reveal_strlit("block");
    assert("rescue"@.len() != "block"@.len());
    reveal_strlit("do_block");
    assert("rescue"@.len() != "do_block"@.len());
    reveal_strlit("method_parameters");
    assert("rescue"@.len() != "method_parameters"@.len());
    reveal_strlit("block_parameters");
    assert("rescue"@.len() != "block_parameters"@.len());
    reveal_strlit("body_statement");
    assert("rescue"@.len() != "body_statement"@.len());
    reveal_strlit("assignment");
    assert("rescue"@.len() != "assignment"@.len());
    reveal_strlit("if");
    assert("rescue"@.len() != "if"@.len());
    reveal_strlit("unless");
    assert("rescue"@[0] != "unless"@[0]);
    reveal_strlit("elsif");
    assert("rescue"@.len() != "elsif"@.len());
    reveal_strlit("else");
    assert("rescue"@.len() != "else"@.len());
    reveal_strlit("while");
    assert("rescue"@.len() != "while"@.len());
    reveal_strlit("until");
    assert("rescue"@.len() != "until"@.len());
    reveal_strlit("for");
    assert("rescue"@.len() != "for"@.len());
    reveal_strlit("case");
    assert("rescue"@.len() != "case"@.len());
    reveal_strlit("when");
    assert("rescue"@.len() != "when"@.len());
    reveal_strlit("return");
    assert("rescue"@[2] != "return"@[2]);
    reveal_strlit("break");
    assert("rescue"@.len() != "break"@.len());
    reveal_strlit("next");
    assert("rescue"@.len() != "next"@.len());
    reveal_strlit("begin");
    assert("rescue"@.len() != "begin"@.len());
    assert(ruby_kind(t, n, "rescue"@) == KindView::Catch);
}

/// In the Ruby table, grammar kind `ensure` maps to `Finally` for every node of every tree.
proof fn lemma_ruby_ensure_maps_to_finally(t: &SyntaxTree, n: int)
    ensures
        mapped_kind(Language::Ruby, t, n, "ensure"@) == KindView::Finally,
{
    reveal_strlit("ensure");
    reveal_strlit("program");
    assert("ensure"@.len() != "program"@.len());
    reveal_strlit("module");
    assert("ensure"@[0] != "module"@[0]);
    reveal_strlit("class");
    assert("ensure"@.len() != "class"@.len());
    reveal_strlit("method");
    assert("ensure"@[0] != "method"@[0]);
    reveal_strlit("singleton_method");
    assert("ensure"@.len() != "singleton_method"@.len());
    reveal_strlit("lambda");
    assert("ensure"@[0] != "lambda"@[0]);
    reveal_strlit("block");
    assert("ensure"@.len() != "block"@.len());
    reveal_strlit("do_block");
    assert("ensure"@.len() != "do_block"@.len());
    reveal_strlit("method_parameters");
    assert("ensure"@.len() != "method_parameters"@.len());
    reveal_strlit("block_parameters");
    assert("ensure"@.len() != "block_parameters"@.len());
    reveal_strlit("body_statement");
    assert("ensure"@.len() != "body_statement"@.len());
    reveal_strlit("assignment");
    assert("ensure"@.len() != "assignment"@.len());
    reveal_strlit("if");
    assert("ensure"@.len() != "if"@.len());
    reveal_strlit("unless");
    assert("ensure"@[0] != "unless"@[0]);
    reveal_strlit("elsif");
    assert("ensure"@.len() != "elsif"@.len());
    reveal_strlit("else");
    assert("ensure"@.len() != "else"@.len());
    reveal_strlit("while");
    assert("ensure"@.len() != "while"@.len());
    reveal_strlit("until");
    assert("ensure"@.len() != "until"@.len());
    reveal_strlit("for");
    assert("ensure"@.len() != "for"@.len());
    reveal_strlit("case");
    assert("ensure"@.len() != "case"@.len());
    reveal_strlit("when");
    assert("ensure"@.len() != "when"@.len());
    reveal_strlit("return");
    assert("ensure"@[0] != "return"@[0]);
    reveal_strlit("break");
    assert("ensure"@.len() != "break"@.len());
    reveal_strlit("next");
    assert("ensure"@.len() != "next"@.len());
    reveal_strlit("begin");
    assert("ensure"@.len() != "begin"@.len());
    reveal_strlit("rescue");
    assert("ensure"@[0] != "rescue"@[0]);
    assert(ruby_kind(t, n, "ensure"@) == KindView::Finally);
}

/// In the Ruby table, grammar kind `raise` maps to `Throw` for every node of every tree.
proof fn lemma_ruby_raise_maps_to_throw(t: &SyntaxTree, n: int)
    ensures
        mapped_kind(Language::Ruby, t, n, "raise"@) == KindView::Throw,
{
    reveal_strlit("raise");
    reveal_strlit("program");
    assert("raise"@.len() != "program"@.len());
    reveal_strlit("module");
    assert("raise"@.len() != "module"@.len());
    reveal_strlit("class");
    assert("raise"@[0] != "class"@[0]);
    reveal_strlit("method");
    assert("raise"@.len() != "method"@.len());
    reveal_strlit("singleton_method");
    assert("raise"@.len() != "singleton_method"@.len());
    reveal_strlit("lambda");
    assert("raise"@.len() != "lambda"@.len());
    reveal_strlit("block");
    assert("raise"@[0] != "block"@[0]);
    reveal_strlit("do_block");
    assert("raise"@.len() != "do_block"@.len());
    reveal_strlit("method_parameters");
    assert("raise"@.len() != "method_parameters"@.len());
    reveal_strlit("block_parameters");
    assert("raise"@.len() != "block_parameters"@.len());
    reveal_strlit("body_statement");
    assert("raise"@.len() != "body_statement"@.len());
    reveal_strlit("assignment");
    assert("raise"@.len() != "assignment"@.len());
    reveal_strlit("if");
    assert("raise"@.len() != "if"@.len());
    reveal_strlit("unless");
    assert("raise"@.len() != "unless"@.len());
    reveal_strlit("elsif");
    assert("raise"@[0] != "elsif"@[0]);
    reveal_strlit("else");
    assert("raise"@.len() != "else"@.len());
    reveal_strlit("while");
    assert("raise"@[0] != "while"@[0]);
    reveal_strlit("until");
    assert("raise"@[0] != "until"@[0]);
    reveal_strlit("for");
    assert("raise"@.len() != "for"@.len());
    reveal_strlit("case");
    assert("raise"@.len() != "case"@.len());
    reveal_strlit("when");
    assert("raise"@.len() != "when"@.len());
    reveal_strlit("return");
    assert("raise"@.len() != "return"@.len());
    reveal_strlit("break");
    assert("raise"@[0] != "break"@[0]);
    reveal_strlit("next");
    assert("raise"@.len() != "next"@.len());
    reveal_strlit("begin");
    assert("raise"@[0] != "begin"@[0]);
    reveal_strlit("rescue");
    assert("raise"@.len() != "rescue"@.len());
    reveal_strlit("ensure");
    assert("raise"@.len() != "ensure"@.len());
    assert(ruby_kind(t, n, "raise"@) == KindView::Throw);
}

/// In the Ruby table, grammar kind `yield` maps to `Yield` for every node of every tree.
proof fn lemma_ruby_yield_maps_to_yield(t: &SyntaxTree, n: int)
    ensures
        mapped_kind(Language::Ruby, t, n, "yield"@) == KindView::Yield,
{
    reveal_strlit("yield");
    reveal_strlit("program");
    assert("yield"@.len() != "program"@.len());
    reveal_strlit("module");
    assert("yield"@.len() != "module"@.len());
    reveal_strlit("class");
    assert("yield"@[0] != "class"@[0]);
    reveal_strlit("method");
    assert("yield"@.len() != "method"@.len());
    reveal_strlit("singleton_method");
    assert("yield"@.len() != "singleton_method"@.len());
    reveal_strlit("lambda");
    assert("yield"@.len() != "lambda"@.len());
    reveal_strlit("block");
    assert("yield"@[0] != "block"@[0]);
    reveal_strlit("do_block");
    assert("yield"@.len() != "do_block"@.len());
    reveal_strlit("method_parameters");
    assert("yield"@.len() != "method_parameters"@.len());
    reveal_strlit("block_parameters");
    assert("yield"@.len() != "block_parameters"@.len());
    reveal_strlit("body_statement");
    assert("yield"@.len() != "body_statement"@.len());
    reveal_strlit("assignment");
    assert("yield"@.len() != "assignment"@.len());
    reveal_strlit("if");
    assert("yield"@.len() != "if"@.len());
    reveal_strlit("unless");
    assert("yield"@.len() != "unless"@.len());
    reveal_strlit("elsif");
    assert("yield"@[0] != "elsif"@[0]);
    reveal_strlit("else");
    assert("yield"@.len() != "else"@.len());
    reveal_strlit("while");
    assert("yield"@[0] != "while"@[0]);
    reveal_strlit("until");
    assert("yield"@[0] != "until"@[0]);
    reveal_strlit("for");
    assert("yield"@.len() != "for"@.len());
    reveal_strlit("case");
    assert("yield"@.len() != "case"@.len());
    reveal_strlit("when");
    assert("yield"@.len() != "when"@.len());
    reveal_strlit("return");
    assert("yield"@.len() != "return"@.len());
    reveal_strlit("break");
    assert("yield"@[0] != "break"@[0]);
    reveal_strlit("next");
    assert("yield"@.len() != "next"@.len());
    reveal_strlit("begin");
    assert("yield"@[0] != "begin"@[0]);
    reveal_strlit("rescue");
    assert("yield"@.len() != "rescue"@.len());
    reveal_strlit("ensure");
    assert("yield"@.len() != "ensure"@.len());
    reveal_strlit("raise");
    assert("yield"@[0] != "raise"@[0]);
    assert(ruby_kind(t, n, "yield"@) == KindView::Yield);
}

/// In the Bash table, grammar kind `if_statement` maps to `If` for every node of every tree.
proof fn lemma_bash_if_statement_maps_to_if(t: &SyntaxTree, n: int)
    ensures
        mapped_kind(Language::Bash, t, n, "if_statement"@) == KindView::If,
{
    reveal_strlit("if_statement");
    reveal_strlit("program");
    assert("if_statement"@.len() != "program"@.len());
    reveal_strlit("function_definition");
    assert("if_statement"@.len() != "function_definition"@.len());
    reveal_strlit("compound_statement");
    assert("if_statement"@.len() != "compound_statement"@.len());
    reveal_strlit("variable_assignment");
    assert("if_statement"@.len() != "variable_assignment"@.len());
    assert(bash_kind(t, n, "if_statement"@) == KindView::If);
}

/// In the Bash table, grammar kind `elif_clause` maps to `Else` for every node of every tree.
proof fn lemma_bash_elif_clause_maps_to_else(t: &SyntaxTree, n: int)
    ensures
        mapped_kind(Language::Bash, t, n, "elif_clause"@) == KindView::Else,
{
    reveal_strlit("elif_clause");
    reveal_strlit("program");
    assert("elif_clause"@.len() != "program"@.len());
    reveal_strlit("function_definition");
    assert("elif_clause"@.len() != "function_definition"@.len());
    reveal_strlit("compound_statement");
    assert("elif_clause"@.len() != "compound_statement"@.len());
    reveal_strlit("variable_assignment");
    assert("elif_clause"@.len() != "variable_assignment"@.len());
    reveal_strlit("if_statement");
    assert("elif_clause"@.len() != "if_statement"@.len());
    assert(bash_kind(t, n, "elif_clause"@) == KindView::Else);
}

/// In the Bash table, grammar kind `else_clause` maps to `Else` for every node of every tree.
proof fn lemma_bash_else_clause_maps_to_else(t: &SyntaxTree, n: int)
    ensures
        mapped_kind(Language::Bash, t, n, "else_clause"@) == KindView::Else,
{
    reveal_strlit("else_clause");
    reveal_strlit("program");
    assert("else_clause"@.len() != "program"@.len());
    reveal_strlit("function_definition");
    assert("else_clause"@.len() != "function_definition"@.len());
    reveal_strlit("compound_statement");
    assert("else_clause"@.len() != "compound_statement"@.len());
    reveal_strlit("variable_assignment");
    assert("else_clause"@.len() != "variable_assignment"@.len());
    reveal_strlit("if_statement");
    assert("else_clause"@.len() != "if_statement"@.len());
    assert(bash_kind(t, n, "else_clause"@) == KindView::Else);
}

/// In the Bash table, grammar kind `while_statement` maps to `While` for every node of every tree.
proof fn lemma_bash_while_statement_maps_to_while(t: &SyntaxTree, n: int)
    ensures
        mapped_kind(Language::Bash, t, n, "while_statement"@) == KindView::While,
{
    reveal_strlit("while_statement");
    reveal_strlit("program");
    assert("while_statement"@.len() != "program"@.len());
    reveal_strlit("function_definition");
    assert("while_statement"@.len() != "function_definition"@.len());
    reveal_strlit("compound_statement");
    assert("while_statement"@.len() != "compound_statement"@.len());
    reveal_strlit("variable_assignment");
    assert("while_statement"@.len() != "variable_assignment"@.len());
    reveal_strlit("if_statement");
    assert("while_statement"@.len() != "if_statement"@.len());
    reveal_strlit("elif_clause");
    assert("while_statement"@.len() != "elif_clause"@.len());
    reveal_strlit("else_clause");
    assert("while_statement"@.len() != "else_clause"@.len());
    assert(bash_kind(t, n, "while_statement"@) == KindView::While);
}

/// In the Bash table, grammar kind `until_statement` maps to `While` for every node of every tree.
proof fn lemma_bash_until_statement_maps_to_while(t: &SyntaxTree, n: int)
    ensures
        mapped_kind(Language::Bash, t, n, "until_statement"@) == KindView::While,
{
    reveal_strlit("until_statement");
    reveal_strlit("program");
    assert("until_statement"@.len() != "program"@.len());
    reveal_strlit("function_definition");
    assert("until_statement"@.len() != "function_definition"@.len());
    reveal_strlit("compound_statement");
    assert("until_statement"@.len() != "compound_statement"@.len());
    reveal_strlit("variable_assignment");
    assert("until_statement"@.len() != "variable_assignment"@.len());
    reveal_strlit("if_statement");
    assert("until_statement"@.len() != "if_statement"@.len());
    reveal_strlit("elif_clause");
    assert("until_statement"@.len() != "elif_clause"@.len());
    reveal_strlit("else_clause");
    assert("until_statement"@.len() != "else_clause"@.len());
    assert(bash_kind(t, n, "until_statement"@) == KindView::While);
}

/// In the Bash table, grammar kind `for_statement` maps to `For` for every node of every tree.
proof fn lemma_bash_for_statement_maps_to_for(t: &SyntaxTree, n: int)
    ensures
        mapped_kind(Language::Bash, t, n, "for_statement"@) == KindView::For,
{
    reveal_strlit("for_statement");
    reveal_strlit("program");
    assert("for_statement"@.len() != "program"@.len());
    reveal_strlit("function_definition");
    assert("for_statement"@.len() != "function_definition"@.len());
    reveal_strlit("compound_statement");
    assert("for_statement"@.len() != "compound_statement"@.len());
    reveal_strlit("variable_assignment");
    assert("for_statement"@.len() != "variable_assignment"@.len());
    reveal_strlit("if_statement");
    assert("for_statement"@.len() != "if_statement"@.len());
    reveal_strlit("elif_clause");
    assert("for_statement"@.len() != "elif_clause"@.len());
    reveal_strlit("else_clause");
    assert("for_statement"@.len() != "else_clause"@.len());
    reveal_strlit("while_statement");
    assert("for_statement"@.len() != "while_statement"@.len());
    reveal_strlit("until_statement");
    assert("for_statement"@.len() != "until_statement"@.len());
    assert(bash_kind(t, n, "for_statement"@) == KindView::For);
}

/// In the Bash table, grammar kind `c_style_for_statement` maps to `For` for every node of every tree.
proof fn lemma_bash_c_style_for_statement_maps_to_for(t: &SyntaxTree, n: int)
    ensures
        mapped_kind(Language::Bash, t, n, "c_style_for_statement"@) == KindView::For,
{
    reveal_strlit("c_style_for_statement");
    reveal_strlit("program");
    assert("c_style_for_statement"@.len() != "program"@.len());
    reveal_strlit("function_definition");
    assert("c_style_for_statement"@.len() != "function_definition"@.len());
    reveal_strlit("compound_statement");
    assert("c_style_for_statement"@.len() != "compound_statement"@.len());
    reveal_strlit("variable_assignment");
    assert("c_style_for_statement"@.len() != "variable_assignment"@.len());
    reveal_strlit("if_statement");
    assert("c_style_for_statement"@.len() != "if_statement"@.len());
    reveal_strlit("elif_clause");
    assert("c_style_for_statement"@.len() != "elif_clause"@.len());
    reveal_strlit("else_clause");
    assert("c_style_for_statement"@.len() != "else_clause"@.len());
    reveal_strlit("while_statement");
    assert("c_style_for_statement"@.len() != "while_statement"@.len());
    reveal_strlit("until_statement");
    assert("c_style_for_statement"@.len() != "until_statement"@.len());
    assert(bash_kind(t, n, "c_style_for_statement"@) == KindView::For);
}

/// In the Bash table, grammar kind `case_statement` maps to `Match` for every node of every tree.
proof fn lemma_bash_case_statement_maps_to_match(t: &SyntaxTree, n: int)
    ensures
        mapped_kind(Language::Bash, t, n, "case_statement"@) == KindView::Match,
{
    reveal_strlit("case_statement");
    reveal_strlit("program");
    assert("case_statement"@.len() != "program"@.len());
    reveal_strlit("function_definition");
    assert("case_statement"@.len() != "function_definition"@.len());
    reveal_strlit("compound_statement");
    assert("case_statement"@.len() != "compound_statement"@.len());
    reveal_strlit("variable_assignment");
    assert("case_statement"@.len() != "variable_assignment"@.len());
    reveal_strlit("if_statement");
    assert("case_statement"@.len() != "if_statement"@.len());
    reveal_strlit("elif_clause");
    assert("case_statement"@.len() != "elif_clause"@.len());
    reveal_strlit("else_clause");
    assert("case_statement"@.len() != "else_clause"@.len());
    reveal_strlit("while_statement");
    assert("case_statement"@.len() != "while_statement"@.len());
    reveal_strlit("until_statement");
    assert("case_statement"@.len() != "until_statement"@.len());
    reveal_strlit("for_statement");
    assert("case_statement"@.len() != "for_statement"@.len());
    reveal_strlit("c_style_for_statement");
    assert("case_statement"@.len() != "c_style_for_statement"@.len());
    assert(bash_kind(t, n, "case_statement"@) == KindView::Match);
}

/// In the Bash table, grammar kind `case_item` maps to `MatchArm` for every node of every tree.
proof fn lemma_bash_case_item_maps_to_match_arm(t: &SyntaxTree, n: int)
    ensures
        mapped_kind(Language::Bash, t, n, "case_item"@) == KindView::MatchArm,
{
    reveal_strlit("case_item");
    reveal_strlit("program");
    assert("case_item"@.len() != "program"@.len());
    reveal_strlit("function_definition");
    assert("case_item"@.len() != "function_definition"@.len());
    reveal_strlit("compound_statement");
    assert("case_item"@.len() != "compound_statement"@.len());
    reveal_strlit("variable_assignment");
    assert("case_item"@.len() != "variable_assignment"@.len());
    reveal_strlit("if_statement");
    assert("case_item"@.len() != "if_statement"@.len());
    reveal_strlit("elif_clause");
    assert("case_item"@.len() != "elif_clause"@.len());
    reveal_strlit("else_clause");
    assert("case_item"@.len() != "else_clause"@.len());
    reveal_strlit("while_statement");
    assert("case_item"@.len() != "while_statement"@.len());
    reveal_strlit("until_statement");
    assert("case_item"@.len() != "until_statement"@.len());
    reveal_strlit("for_statement");
    assert("case_item"@.len() != "for_statement"@.len());
    reveal_strlit("c_style_for_statement");
    assert("case_item"@.len() != "c_style_for_statement"@.len());
    reveal_strlit("case_statement");
    assert("case_item"@.len() != "case_statement"@.len());
    assert(bash_kind(t, n, "case_item"@) == KindView::MatchArm);
}

/// The Rust grammar's control constructs map to their node kinds, for
/// every node of every tree: each conditional, `else`, loop (`while` to
/// `While`, `for` to `For`, an unconditional loop to `Loop`), `match` or
/// `switch` and its arms, jump, and exception construct of the grammar.
pub proof fn law_rust_control_kinds(t: &SyntaxTree, n: int)
    ensures
        mapped_kind(Language::Rust, t, n, "if_expression"@) == KindView::If,
        mapped_kind(Language::Rust, t, n, "else_clause"@) == KindView::Else,
        mapped_kind(Language::Rust, t, n, "while_expression"@) == KindView::While,
        mapped_kind(Language::Rust, t, n, "for_expression"@) == KindView::For,
        mapped_kind(Language::Rust, t, n, "loop_expression"@) == KindView::Loop,
        mapped_kind(Language::Rust, t, n, "match_expression"@) == KindView::Match,
        mapped_kind(Language::Rust, t, n, "match_arm"@) == KindView::MatchArm,
        mapped_kind(Language::Rust, t, n, "return_expression"@) == KindView::Return,
        mapped_kind(Language::Rust, t, n, "break_expression"@) == KindView::Break,
        mapped_kind(Language::Rust, t, n, "continue_expression"@) == KindView::Continue,
        mapped_kind(Language::Rust, t, n, "try_expression"@) == KindView::Try,
        mapped_kind(Language::Rust, t, n, "await_expression"@) == KindView::Await,
{
    lemma_rust_if_expression_maps_to_if(t, n);
    lemma_rust_else_clause_maps_to_else(t, n);
    lemma_rust_while_expression_maps_to_while(t, n);
    lemma_rust_for_expression_maps_to_for(t, n);
    lemma_rust_loop_expression_maps_to_loop(t, n);
    lemma_rust_match_expression_maps_to_match(t, n);
    lemma_rust_match_arm_maps_to_match_arm(t, n);
    lemma_rust_return_expression_maps_to_return(t, n);
    lemma_rust_break_expression_maps_to_break(t, n);
    lemma_rust_continue_expression_maps_to_continue(t, n);
    lemma_rust_try_expression_maps_to_try(t, n);
    lemma_rust_await_expression_maps_to_await(t, n);
}

/// The Python grammar's control constructs map to their node kinds, for
/// every node of every tree: each conditional, `else`, loop (`while` to
/// `While`, `for` to `For`, an unconditional loop to `Loop`), `match` or
/// `switch` and its arms, jump, and exception construct of the grammar.
pub proof fn law_python_control_kinds(t: &SyntaxTree, n: int)
    ensures
        mapped_kind(Language::Python, t, n, "if_statement"@) == KindView::If,
        mapped_kind(Language::Python, t, n, "elif_clause"@) == KindView::Else,
        mapped_kind(Language::Python, t, n, "else_clause"@) == KindView::Else,
        mapped_kind(Language::Python, t, n, "while_statement"@) == KindView::While,
        mapped_kind(Language::Python, t, n, "for_statement"@) == KindView::For,
        mapped_kind(Language::Python, t, n, "match_statement"@) == KindView::Match,
        mapped_kind(Language::Python, t, n, "case_clause"@) == KindView::MatchArm,
        mapped_kind(Language::Python, t, n, "return_statement"@) == KindView::Return,
        mapped_kind(Language::Python, t, n, "break_statement"@) == KindView::Break,
        mapped_kind(Language::Python, t, n, "continue_statement"@) == KindView::Continue,
        mapped_kind(Language::Python, t, n, "try_statement"@) == KindView::Try,
        mapped_kind(Language::Python, t, n, "except_clause"@) == KindView::Catch,
        mapped_kind(Language::Python, t, n, "finally_clause"@) == KindView::Finally,
        mapped_kind(Language::Python, t, n, "raise_statement"@) == KindView::Throw,
        mapped_kind(Language::Python, t, n, "await"@) == KindView::Await,
        mapped_kind(Language::Python, t, n, "yield"@) == KindView::Yield,
{
    lemma_python_if_statement_maps_to_if(t, n);
    lemma_python_elif_clause_maps_to_else(t, n);
    lemma_python_else_clause_maps_to_else(t, n);
    lemma_python_while_statement_maps_to_while(t, n);
    lemma_python_for_statement_maps_to_for(t, n);
    lemma_python_match_statement_maps_to_match(t, n);
    lemma_python_case_clause_maps_to_match_arm(t, n);
    lemma_python_return_statement_maps_to_return(t, n);
    lemma_python_break_statement_maps_to_break(t, n);
    lemma_python_continue_statement_maps_to_continue(t, n);
    lemma_python_try_statement_maps_to_try(t, n);
    lemma_python_except_clause_maps_to_catch(t, n);
    lemma_python_finally_clause_maps_to_finally(t, n);
    lemma_python_raise_statement_maps_to_throw(t, n);
    lemma_python_await_maps_to_await(t, n);
    lemma_python_yield_maps_to_yield(t, n);
}

/// The JavaScript and TypeScript grammar's control constructs map to their node kinds, for
/// every node of every tree: each conditional, `else`, loop (`while` to
/// `While`, `for` to `For`, an unconditional loop to `Loop`), `match` or
/// `switch` and its arms, jump, and exception construct of the grammar.
pub proof fn law_js_control_kinds(t: &SyntaxTree, n: int)
    ensures
        mapped_kind(Language::JavaScript, t, n, "if_statement"@) == KindView::If,
        mapped_kind(Language::TypeScript, t, n, "if_statement"@) == KindView::If,
        mapped_kind(Language::JavaScript, t, n, "else_clause"@) == KindView::Else,
        mapped_kind(Language::TypeScript, t, n, "else_clause"@) == KindView::Else,
        mapped_kind(Language::JavaScript, t, n, "while_statement"@) == KindView::While,
        mapped_kind(Language::TypeScript, t, n, "while_statement"@) == KindView::While,
        mapped_kind(Language::JavaScript, t, n, "for_statement"@) == KindView::For,
        mapped_kind(Language::TypeScript, t, n, "for_statement"@) == KindView::For,
        mapped_kind(Language::JavaScript, t, n, "for_in_statement"@) == KindView::For,
        mapped_kind(Language::TypeScript, t, n, "for_in_statement"@) == KindView::For,
        mapped_kind(Language::JavaScript, t, n, "for_of_statement"@) == KindView::For,
        mapped_kind(Language::TypeScript, t, n, "for_of_statement"@) == KindView::For,
        mapped_kind(Language::JavaScript, t, n, "do_statement"@) == KindView::Loop,
        mapped_kind(Language::TypeScript, t, n, "do_statement"@) == KindView::Loop,
        mapped_kind(Language::JavaScript, t, n, "switch_statement"@) == KindView::Match,
        mapped_kind(Language::TypeScript, t, n, "switch_statement"@) == KindView::Match,
        mapped_kind(Language::JavaScript, t, n, "switch_case"@) == KindView::MatchArm,
        mapped_kind(Language::TypeScript, t, n, "switch_case"@) == KindView::MatchArm,
        mapped_kind(Language::JavaScript, t, n, "switch_default"@) == KindView::MatchArm,
        mapped_kind(Language::TypeScript, t, n, "switch_default"@) == KindView::MatchArm,
        mapped_kind(Language::JavaScript, t, n, "return_statement"@) == KindView::Return,
        mapped_kind(Language::TypeScript, t, n, "return_statement"@) == KindView::Return,
        mapped_kind(Language::JavaScript, t, n, "break_statement"@) == KindView::Break,
        mapped_kind(Language::TypeScript, t, n, "break_statement"@) == KindView::Break,
        mapped_kind(Language::JavaScript, t, n, "continue_statement"@) == KindView::Continue,
        mapped_kind(Language::TypeScript, t, n, "continue_statement"@) == KindView::Continue,
        mapped_kind(Language::JavaScript, t, n, "try_statement"@) == KindView::Try,
        mapped_kind(Language::TypeScript, t, n, "try_statement"@) == KindView::Try,
        mapped_kind(Language::JavaScript, t, n, "catch_clause"@) == KindView::Catch,
        mapped_kind(Language::TypeScript, t, n, "catch_clause"@) == KindView::Catch,
        mapped_kind(Language::JavaScript, t, n, "finally_clause"@) == KindView::Finally,
        mapped_kind(Language::TypeScript, t, n, "finally_clause"@) == KindView::Finally,
        mapped_kind(Language::JavaScript, t, n, "throw_statement"@) == KindView::Throw,
        mapped_kind(Language::TypeScript, t, n, "throw_statement"@) == KindView::Throw,
        mapped_kind(Language::JavaScript, t, n, "await_expression"@) == KindView::Await,
        mapped_kind(Language::TypeScript, t, n, "await_expression"@) == KindView::Await,
        mapped_kind(Language::JavaScript, t, n, "yield_expression"@) == KindView::Yield,
        mapped_kind(Language::TypeScript, t, n, "yield_expression"@) == KindView::Yield,
{
    lemma_js_if_statement_maps_to_if(t, n);
    lemma_js_else_clause_maps_to_else(t, n);
    lemma_js_while_statement_maps_to_while(t, n);
    lemma_js_for_statement_maps_to_for(t, n);
    lemma_js_for_in_statement_maps_to_for(t, n);
    lemma_js_for_of_statement_maps_to_for(t, n);
    lemma_js_do_statement_maps_to_loop(t, n);
    lemma_js_switch_statement_maps_to_match(t, n);
    lemma_js_switch_case_maps_to_match_arm(t, n);
    lemma_js_switch_default_maps_to_match_arm(t, n);
    lemma_js_return_statement_maps_to_return(t, n);
    lemma_js_break_statement_maps_to_break(t, n);
    lemma_js_continue_statement_maps_to_continue(t, n);
    lemma_js_try_statement_maps_to_try(t, n);
    lemma_js_catch_clause_maps_to_catch(t, n);
    lemma_js_finally_clause_maps_to_finally(t, n);
    lemma_js_throw_statement_maps_to_throw(t, n);
    lemma_js_await_expression_maps_to_await(t, n);
    lemma_js_yield_expression_maps_to_yield(t, n);
}

/// The Go grammar's control constructs map to their node kinds, for
/// every node of every tree: each conditional, `else`, loop (`while` to
/// `While`, `for` to `For`, an unconditional loop to `Loop`), `match` or
/// `switch` and its arms, jump, and exception construct of the grammar.
pub proof fn law_go_control_kinds(t: &SyntaxTree, n: int)
    ensures
        mapped_kind(Language::Go, t, n, "if_statement"@) == KindView::If,
        mapped_kind(Language::Go, t, n, "for_statement"@) == KindView::For,
        mapped_kind(Language::Go, t, n, "switch_statement"@) == KindView::Match,
        mapped_kind(Language::Go, t, n, "type_switch_statement"@) == KindView::Match,
        mapped_kind(Language::Go, t, n, "expression_case"@) == KindView::MatchArm,
        mapped_kind(Language::Go, t, n, "type_case"@) == KindView::MatchArm,
        mapped_kind(Language::Go, t, n, "default_case"@) == KindView::MatchArm,
        mapped_kind(Language::Go, t, n, "return_statement"@) == KindView::Return,
        mapped_kind(Language::Go, t, n, "break_statement"@) == KindView::Break,
        mapped_kind(Language::Go, t, n, "continue_statement"@) == KindView::Continue,
        mapped_kind(Language::Go, t, n, "go_statement"@) == KindView::Await,
        mapped_kind(Language::Go, t, n, "defer_statement"@) == KindView::Finally,
{
    lemma_go_if_statement_maps_to_if(t, n);
    lemma_go_for_statement_maps_to_for(t, n);
    lemma_go_switch_statement_maps_to_match(t, n);
    lemma_go_type_switch_statement_maps_to_match(t, n);
    lemma_go_expression_case_maps_to_match_arm(t, n);
    lemma_go_type_case_maps_to_match_arm(t, n);
    lemma_go_default_case_maps_to_match_arm(t, n);
    lemma_go_return_statement_maps_to_return(t, n);
    lemma_go_break_statement_maps_to_break(t, n);
    lemma_go_continue_statement_maps_to_continue(t, n);
    lemma_go_go_statement_maps_to_await(t, n);
    lemma_go_defer_statement_maps_to_finally(t, n);
}

/// The Java grammar's control constructs map to their node kinds, for
/// every node of every tree: each conditional, `else`, loop (`while` to
/// `While`, `for` to `For`, an unconditional loop to `Loop`), `match` or
/// `switch` and its arms, jump, and exception construct of the grammar.
pub proof fn law_java_control_kinds(t: &SyntaxTree, n: int)
    ensures
        mapped_kind(Language::Java, t, n, "if_statement"@) == KindView::If,
        mapped_kind(Language::Java, t, n, "while_statement"@) == KindView::While,
        mapped_kind(Language::Java, t, n, "for_statement"@) == KindView::For,
        mapped_kind(Language::Java, t, n, "enhanced_for_statement"@) == KindView::For,
        mapped_kind(Language::Java, t, n, "do_statement"@) == KindView::Loop,
        mapped_kind(Language::Java, t, n, "switch_expression"@) == KindView::Match,
        mapped_kind(Language::Java, t, n, "switch_block_statement_group"@) == KindView::MatchArm,
        mapped_kind(Language::Java, t, n, "switch_rule"@) == KindView::MatchArm,
        mapped_kind(Language::Java, t, n, "return_statement"@) == KindView::Return,
        mapped_kind(Language::Java, t, n, "break_statement"@) == KindView::Break,
        mapped_kind(Language::Java, t, n, "continue_statement"@) == KindView::Continue,
        mapped_kind(Language::Java, t, n, "try_statement"@) == KindView::Try,
        mapped_kind(Language::Java, t, n, "try_with_resources_statement"@) == KindView::Try,
        mapped_kind(Language::Java, t, n, "catch_clause"@) == KindView::Catch,
        mapped_kind(Language::Java, t, n, "finally_clause"@) == KindView::Finally,
        mapped_kind(Language::Java, t, n, "throw_statement"@) == KindView::Throw,
{
    lemma_java_if_statement_maps_to_if(t, n);
    lemma_java_while_statement_maps_to_while(t, n);
    lemma_java_for_statement_maps_to_for(t, n);
    lemma_java_enhanced_for_statement_maps_to_for(t, n);
    lemma_java_do_statement_maps_to_loop(t, n);
    lemma_java_switch_expression_maps_to_match(t, n);
    lemma_java_switch_block_statement_group_maps_to_match_arm(t, n);
    lemma_java_switch_rule_maps_to_match_arm(t, n);
    lemma_java_return_statement_maps_to_return(t, n);
    lemma_java_break_statement_maps_to_break(t, n);
    lemma_java_continue_statement_maps_to_continue(t, n);
    lemma_java_try_statement_maps_to_try(t, n);
    lemma_java_try_with_resources_statement_maps_to_try(t, n);
    lemma_java_catch_clause_maps_to_catch(t, n);
    lemma_java_finally_clause_maps_to_finally(t, n);
    lemma_java_throw_statement_maps_to_throw(t, n);
}

/// The C and C++ grammar's control constructs map to their node kinds, for
/// every node of every tree: each conditional, `else`, loop (`while` to
/// `While`, `for` to `For`, an unconditional loop to `Loop`), `match` or
/// `switch` and its arms, jump, and exception construct of the grammar.
pub proof fn law_c_control_kinds(t: &SyntaxTree, n: int)
    ensures
        mapped_kind(Language::C, t, n, "if_statement"@) == KindView::If,
        mapped_kind(Language::Cpp, t, n, "if_statement"@) == KindView::If,
        mapped_kind(Language::C, t, n, "else_clause"@) == KindView::Else,
        mapped_kind(Language::Cpp, t, n, "else_clause"@) == KindView::Else,
        mapped_kind(Language::C, t, n, "while_statement"@) == KindView::While,
        mapped_kind(Language::Cpp, t, n, "while_statement"@) == KindView::While,
        mapped_kind(Language::C, t, n, "for_statement"@) == KindView::For,
        mapped_kind(Language::Cpp, t, n, "for_statement"@) == KindView::For,
        mapped_kind(Language::C, t, n, "for_range_loop"@) == KindView::For,
        mapped_kind(Language::Cpp, t, n, "for_range_loop"@) == KindView::For,
        mapped_kind(Language::C, t, n, "do_statement"@) == KindView::Loop,
        mapped_kind(Language::Cpp, t, n, "do_statement"@) == KindView::Loop,
        mapped_kind(Language::C, t, n, "switch_statement"@) == KindView::Match,
        mapped_kind(Language::Cpp, t, n, "switch_statement"@) == KindView::Match,
        mapped_kind(Language::C, t, n, "case_statement"@) == KindView::MatchArm,
        mapped_kind(Language::Cpp, t, n, "case_statement"@) == KindView::MatchArm,
        mapped_kind(Language::C, t, n, "return_statement"@) == KindView::Return,
        mapped_kind(Language::Cpp, t, n, "return_statement"@) == KindView::Return,
        mapped_kind(Language::C, t, n, "break_statement"@) == KindView::Break,
        mapped_kind(Language::Cpp, t, n, "break_statement"@) == KindView::Break,
        mapped_kind(Language::C, t, n, "continue_statement"@) == KindView::Continue,
        mapped_kind(Language::Cpp, t, n, "continue_statement"@) == KindView::Continue,
        mapped_kind(Language::C, t, n, "try_statement"@) == KindView::Try,
        mapped_kind(Language::Cpp, t, n, "try_statement"@) == KindView::Try,
        mapped_kind(Language::C, t, n, "catch_clause"@) == KindView::Catch,
        mapped_kind(Language::Cpp, t, n, "catch_clause"@) == KindView::Catch,
        mapped_kind(Language::C, t, n, "throw_statement"@) == KindView::Throw,
        mapped_kind(Language::Cpp, t, n, "throw_statement"@) == KindView::Throw,
{
    lemma_c_if_statement_maps_to_if(t, n);
    lemma_c_else_clause_maps_to_else(t, n);
    lemma_c_while_statement_maps_to_while(t, n);
    lemma_c_for_statement_maps_to_for(t, n);
    lemma_c_for_range_loop_maps_to_for(t, n);
    lemma_c_do_statement_maps_to_loop(t, n);
    lemma_c_switch_statement_maps_to_match(t, n);
    lemma_c_case_statement_maps_to_match_arm(t, n);
    lemma_c_return_statement_maps_to_return(t, n);
    lemma_c_break_statement_maps_to_break(t, n);
    lemma_c_continue_statement_maps_to_continue(t, n);
    lemma_c_try_statement_maps_to_try(t, n);
    lemma_c_catch_clause_maps_to_catch(t, n);
    lemma_c_throw_statement_maps_to_throw(t, n);
}

/// The Ruby grammar's control constructs map to their node kinds, for
/// every node of every tree: each conditional, `else`, loop (`while` to
/// `While`, `for` to `For`, an unconditional loop to `Loop`), `match` or
/// `switch` and its arms, jump, and exception construct of the grammar.
pub proof fn law_ruby_control_kinds(t: &SyntaxTree, n: int)
    ensures
        mapped_kind(Language::Ruby, t, n, "if"@) == KindView::If,
        mapped_kind(Language::Ruby, t, n, "unless"@) == KindView::If,
        mapped_kind(Language::Ruby, t, n, "elsif"@) == KindView::Else,
        mapped_kind(Language::Ruby, t, n, "else"@) == KindView::Else,
        mapped_kind(Language::Ruby, t, n, "while"@) == KindView::While,
        mapped_kind(Language::Ruby, t, n, "until"@) == KindView::While,
        mapped_kind(Language::Ruby, t, n, "for"@) == KindView::For,
        mapped_kind(Language::Ruby, t, n, "case"@) == KindView::Match,
        mapped_kind(Language::Ruby, t, n, "when"@) == KindView::MatchArm,
        mapped_kind(Language::Ruby, t, n, "return"@) == KindView::Return,
        mapped_kind(Language::Ruby, t, n, "break"@) == KindView::Break,
        mapped_kind(Language::Ruby, t, n, "next"@) == KindView::Continue,
        mapped_kind(Language::Ruby, t, n, "begin"@) == KindView::Try,
        mapped_kind(Language::Ruby, t, n, "rescue"@) == KindView::Catch,
        mapped_kind(Language::Ruby, t, n, "ensure"@) == KindView::Finally,
        mapped_kind(Language::Ruby, t, n, "raise"@) == KindView::Throw,
        mapped_kind(Language::Ruby, t, n, "yield"@) == KindView::Yield,
{
    lemma_ruby_if_maps_to_if(t, n);
    lemma_ruby_unless_maps_to_if(t, n);
    lemma_ruby_elsif_maps_to_else(t, n);
    lemma_ruby_else_maps_to_else(t, n);
    lemma_ruby_while_maps_to_while(t, n);
    lemma_ruby_until_maps_to_while(t, n);
    lemma_ruby_for_maps_to_for(t, n);
    lemma_ruby_case_maps_to_match(t, n);
    lemma_ruby_when_maps_to_match_arm(t, n);
    lemma_ruby_return_maps_to_return(t, n);
    lemma_ruby_break_maps_to_break(t, n);
    lemma_ruby_next_maps_to_continue(t, n);
    lemma_ruby_begin_maps_to_try(t, n);
    lemma_ruby_rescue_maps_to_catch(t, n);
    lemma_ruby_ensure_maps_to_finally(t, n);
    lemma_ruby_raise_maps_to_throw(t, n);
    lemma_ruby_yield_maps_to_yield(t, n);
}

/// The Bash grammar's control constructs map to their node kinds, for
/// every node of every tree: each conditional, `else`, loop (`while` to
/// `While`, `for` to `For`, an unconditional loop to `Loop`), `match` or
/// `switch` and its arms, jump, and exception construct of the grammar.
pub proof fn law_bash_control_kinds(t: &SyntaxTree, n: int)
    ensures
        mapped_kind(Language::Bash, t, n, "if_statement"@) == KindView::If,
        mapped_kind(Language::Bash, t, n, "elif_clause"@) == KindView::Else,
        mapped_kind(Language::Bash, t, n, "else_clause"@) == KindView::Else,
        mapped_kind(Language::Bash, t, n, "while_statement"@) == KindView::While,
        mapped_kind(Language::Bash, t, n, "until_statement"@) == KindView::While,
        mapped_kind(Language::Bash, t, n, "for_statement"@) == KindView::For,
        mapped_kind(Language::Bash, t, n, "c_style_for_statement"@) == KindView::For,
        mapped_kind(Language::Bash, t, n, "case_statement"@) == KindView::Match,
        mapped_kind(Language::Bash, t, n, "case_item"@) == KindView::MatchArm,
{
    lemma_bash_if_statement_maps_to_if(t, n);
    lemma_bash_elif_clause_maps_to_else(t, n);
    lemma_bash_else_clause_maps_to_else(t, n);
    lemma_bash_while_statement_maps_to_while(t, n);
    lemma_bash_until_statement_maps_to_while(t, n);
    lemma_bash_for_statement_maps_to_for(t, n);
    lemma_bash_c_style_for_statement_maps_to_for(t, n);
    lemma_bash_case_statement_maps_to_match(t, n);
    lemma_bash_case_item_maps_to_match_arm(t, n);
}

} // verus!
