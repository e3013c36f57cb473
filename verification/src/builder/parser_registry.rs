//! The grammars the library can parse with, keyed by language.

use vstd::prelude::*;
use tree_sitter::Language as Grammar;
use crate::graph::Language;

verus! {

/// A tree-sitter grammar, with the language it parses.
pub struct TsGrammar {
    pub(crate) handle: Grammar,
    /// The language the grammar parses.
    pub(crate) language: Ghost<Language>,
}

impl TsGrammar {
    /// The language the grammar parses.
    pub closed spec fn lang(&self) -> Language {
        self.language@
    }
}

/// The Rust grammar (`tree_sitter_rust::LANGUAGE`), tagged with its language.
#[verifier::external_body]
fn rust_grammar() -> (r: TsGrammar)
    ensures
        r.lang() == Language::Rust,
{
    TsGrammar { handle: tree_sitter_rust::LANGUAGE.into(), language: Ghost(Language::Rust) }
}

/// The Python grammar (`tree_sitter_python::LANGUAGE`), tagged with its language.
#[verifier::external_body]
fn python_grammar() -> (r: TsGrammar)
    ensures
        r.lang() == Language::Python,
{
    TsGrammar { handle: tree_sitter_python::LANGUAGE.into(), language: Ghost(Language::Python) }
}

/// The JavaScript grammar (`tree_sitter_javascript::LANGUAGE`), tagged with its language.
#[verifier::external_body]
fn javascript_grammar() -> (r: TsGrammar)
    ensures
        r.lang() == Language::JavaScript,
{
    TsGrammar { handle: tree_sitter_javascript::LANGUAGE.into(), language: Ghost(Language::JavaScript) }
}

/// The TypeScript grammar (`tree_sitter_typescript::LANGUAGE_TYPESCRIPT`), tagged with its language.
#[verifier::external_body]
fn typescript_grammar() -> (r: TsGrammar)
    ensures
        r.lang() == Language::TypeScript,
{
    TsGrammar { handle: tree_sitter_typescript::LANGUAGE_TYPESCRIPT.into(), language: Ghost(Language::TypeScript) }
}

/// The Go grammar (`tree_sitter_go::LANGUAGE`), tagged with its language.
#[verifier::external_body]
fn go_grammar() -> (r: TsGrammar)
    ensures
        r.lang() == Language::Go,
{
    TsGrammar { handle: tree_sitter_go::LANGUAGE.into(), language: Ghost(Language::Go) }
}

/// The Java grammar (`tree_sitter_java::LANGUAGE`), tagged with its language.
#[verifier::external_body]
fn java_grammar() -> (r: TsGrammar)
    ensures
        r.lang() == Language::Java,
{
    TsGrammar { handle: tree_sitter_java::LANGUAGE.into(), language: Ghost(Language::Java) }
}

/// The C grammar (`tree_sitter_c::LANGUAGE`), tagged with its language.
#[verifier::external_body]
fn c_grammar() -> (r: TsGrammar)
    ensures
        r.lang() == Language::C,
{
    TsGrammar { handle: tree_sitter_c::LANGUAGE.into(), language: Ghost(Language::C) }
}

/// The C++ grammar (`tree_sitter_cpp::LANGUAGE`), tagged with its language.
#[verifier::external_body]
fn cpp_grammar() -> (r: TsGrammar)
    ensures
        r.lang() == Language::Cpp,
{
    TsGrammar { handle: tree_sitter_cpp::LANGUAGE.into(), language: Ghost(Language::Cpp) }
}

/// The JSON grammar (`tree_sitter_json::LANGUAGE`), tagged with its language.
#[verifier::external_body]
fn json_grammar() -> (r: TsGrammar)
    ensures
        r.lang() == Language::Json,
{
    TsGrammar { handle: tree_sitter_json::LANGUAGE.into(), language: Ghost(Language::Json) }
}

/// The HTML grammar (`tree_sitter_html::LANGUAGE`), tagged with its language.
#[verifier::external_body]
fn html_grammar() -> (r: TsGrammar)
    ensures
        r.lang() == Language::Html,
{
    TsGrammar { handle: tree_sitter_html::LANGUAGE.into(), language: Ghost(Language::Html) }
}

/// The CSS grammar (`tree_sitter_css::LANGUAGE`), tagged with its language.
#[verifier::external_body]
fn css_grammar() -> (r: TsGrammar)
    ensures
        r.lang() == Language::Css,
{
    TsGrammar { handle: tree_sitter_css::LANGUAGE.into(), language: Ghost(Language::Css) }
}

/// The Bash grammar (`tree_sitter_bash::LANGUAGE`), tagged with its language.
#[verifier::external_body]
fn bash_grammar() -> (r: TsGrammar)
    ensures
        r.lang() == Language::Bash,
{
    TsGrammar { handle: tree_sitter_bash::LANGUAGE.into(), language: Ghost(Language::Bash) }
}

/// The TOML grammar (`tree_sitter_toml_ng::LANGUAGE`), tagged with its language.
#[verifier::external_body]
fn toml_grammar() -> (r: TsGrammar)
    ensures
        r.lang() == Language::Toml,
{
    TsGrammar { handle: tree_sitter_toml_ng::LANGUAGE.into(), language: Ghost(Language::Toml) }
}

/// The YAML grammar (`tree_sitter_yaml::LANGUAGE`), tagged with its language.
#[verifier::external_body]
fn yaml_grammar() -> (r: TsGrammar)
    ensures
        r.lang() == Language::Yaml,
{
    TsGrammar { handle: tree_sitter_yaml::LANGUAGE.into(), language: Ghost(Language::Yaml) }
}

/// The Markdown block grammar (`tree_sitter_md::LANGUAGE`), tagged with its language.
#[verifier::external_body]
fn markdown_grammar() -> (r: TsGrammar)
    ensures
        r.lang() == Language::Markdown,
{
    TsGrammar { handle: tree_sitter_md::LANGUAGE.into(), language: Ghost(Language::Markdown) }
}

/// The Ruby grammar (`tree_sitter_ruby::LANGUAGE`), tagged with its language.
#[verifier::external_body]
fn ruby_grammar() -> (r: TsGrammar)
    ensures
        r.lang() == Language::Ruby,
{
    TsGrammar { handle: tree_sitter_ruby::LANGUAGE.into(), language: Ghost(Language::Ruby) }
}

/// A copy of a grammar handle (`<tree_sitter::Language as Clone>::clone`),
/// for the same language.
#[verifier::external_body]
fn copy_grammar(g: &TsGrammar) -> (r: TsGrammar)
    ensures
        r.lang() == g.lang(),
{
    TsGrammar { handle: g.handle.clone(), language: Ghost(g.language@) }
}

/// The languages with a grammar, in registration order.
pub open spec fn registered_languages() -> Seq<Language> {
    seq![
        Language::Rust, Language::Python, Language::JavaScript, Language::TypeScript, Language::Go,
        Language::Java, Language::C, Language::Cpp, Language::Json, Language::Html, Language::Css,
        Language::Bash, Language::Toml, Language::Yaml, Language::Markdown, Language::Ruby,
    ]
}

/// Grammars by language.
pub struct ParserRegistry {
    parsers: Vec<(Language, TsGrammar)>,
}

impl ParserRegistry {
    /// Each grammar is filed under the language it parses.
    #[verifier::type_invariant]
    spec fn filed(&self) -> bool {
        forall|k: int| 0 <= k < self.parsers@.len() ==> (#[trigger] self.parsers@[k]).1.lang() == self.parsers@[k].0
    }

    /// The languages that have a grammar, in registration order.
    pub closed spec fn languages(&self) -> Seq<Language> {
        self.parsers@.map_values(|p: (Language, TsGrammar)| p.0)
    }

    /// A registry of every grammar the library links.
    pub fn global() -> (r: ParserRegistry)
        ensures
            r.languages() == registered_languages(),
    {
        let mut parsers: Vec<(Language, TsGrammar)> = Vec::new();
        parsers.push((Language::Rust, rust_grammar()));
        parsers.push((Language::Python, python_grammar()));
        parsers.push((Language::JavaScript, javascript_grammar()));
        parsers.push((Language::TypeScript, typescript_grammar()));
        parsers.push((Language::Go, go_grammar()));
        parsers.push((Language::Java, java_grammar()));
        parsers.push((Language::C, c_grammar()));
        parsers.push((Language::Cpp, cpp_grammar()));
        parsers.push((Language::Json, json_grammar()));
        parsers.push((Language::Html, html_grammar()));
        parsers.push((Language::Css, css_grammar()));
        parsers.push((Language::Bash, bash_grammar()));
        parsers.push((Language::Toml, toml_grammar()));
        parsers.push((Language::Yaml, yaml_grammar()));
        parsers.push((Language::Markdown, markdown_grammar()));
        parsers.push((Language::Ruby, ruby_grammar()));
        assert forall|k: int| 0 <= k < parsers@.len() implies (#[trigger] parsers@[k]).1.lang() == parsers@[k].0 by {}
        let r = ParserRegistry { parsers };
        proof {
            assert(r.languages() =~= registered_languages());
        }
        r
    }

    fn position(&self, lang: Language) -> (r: Option<usize>)
        ensures
            r matches Some(i) ==> i < self.parsers@.len() && self.parsers@[i as int].0 == lang,
            r is None ==> !self.languages().contains(lang),
    {
        let mut i: usize = 0;
        while i < self.parsers.len()
            invariant
                i <= self.parsers@.len(),
                forall|k: int| 0 <= k < i ==> self.parsers@[k].0 != lang,
            decreases self.parsers@.len() - i,
        {
            if self.parsers[i].0 == lang {
                return Some(i);
            }
            i = i + 1;
        }
        proof {
            if self.languages().contains(lang) {
                let k = choose|k: int| 0 <= k < self.languages().len() && self.languages()[k] == lang;
                assert(self.parsers@[k].0 == lang);
            }
        }
        None
    }

    /// The grammar for `lang`, if one is registered.
    pub fn get(&self, lang: Language) -> (r: Option<TsGrammar>)
        ensures
            r is Some == self.languages().contains(lang),
            r matches Some(g) ==> g.lang() == lang,
    {
        proof { use_type_invariant(self); }
        match self.position(lang) {
            Some(i) => {
                proof { assert(self.languages()[i as int] == lang); }
                Some(copy_grammar(&self.parsers[i].1))
            }
            None => None,
        }
    }

    /// Whether a grammar is registered for `lang`.
    pub fn supports(&self, lang: Language) -> (r: bool)
        ensures
            r == self.languages().contains(lang),
    {
        match self.position(lang) {
            Some(i) => {
                proof { assert(self.languages()[i as int] == lang); }
                true
            }
            None => false,
        }
    }

    /// The languages with a grammar.
    pub fn supported_languages(&self) -> (r: Vec<Language>)
        ensures
            r@ == self.languages(),
    {
        let mut r: Vec<Language> = Vec::new();
        let mut i: usize = 0;
        while i < self.parsers.len()
            invariant
                i <= self.parsers@.len(),
                r@ == self.languages().take(i as int),
            decreases self.parsers@.len() - i,
        {
            r.push(self.parsers[i].0);
            proof { assert(self.languages().take(i + 1) =~= self.languages().take(i as int).push(self.parsers@[i as int].0)); }
            i = i + 1;
        }
        proof { assert(self.languages().take(i as int) =~= self.languages()); }
        r
    }

    /// Number of languages with a grammar.
    pub fn language_count(&self) -> (r: usize)
        ensures
            r == self.languages().len(),
    {
        self.parsers.len()
    }
}

} // verus!
