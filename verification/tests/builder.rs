use libcpg::builder::node_mapper::NodeMapper;
use libcpg::builder::parse::syntax_tree;
use libcpg::builder::parser_registry::ParserRegistry;
use libcpg::builder::ts_builder::TreeSitterCpgBuilder;
use libcpg::builder::{CpgBuilder, CpgBuilderConfig};
use libcpg::error::Error;
use libcpg::graph::{CpgNodeKind, Language};

#[test]
fn config_default_and_builder_setters() {
    let d = CpgBuilderConfig::default();
    assert!(!d.retain_source);
    assert!(d.build_cfg);
    assert!(d.build_dfg);
    assert!(!d.include_comments);
    assert_eq!(d.max_file_size, 10 * 1024 * 1024);
    assert!(!d.resolve_imports);

    let n = CpgBuilderConfig::new();
    assert_eq!(n.max_file_size, d.max_file_size);

    let cfg = CpgBuilderConfig::new()
        .with_source(true)
        .with_cfg(false)
        .with_dfg(false)
        .with_comments(true)
        .with_max_file_size(4096)
        .with_import_resolution(true);
    assert!(cfg.retain_source);
    assert!(!cfg.build_cfg);
    assert!(!cfg.build_dfg);
    assert!(cfg.include_comments);
    assert_eq!(cfg.max_file_size, 4096);
    assert!(cfg.resolve_imports, "with_import_resolution must set resolve_imports");
}

#[test]
fn supports_language_reflects_supported_list() {
    let builder = TreeSitterCpgBuilder::new();
    let listed = builder.supported_languages();
    assert!(!listed.is_empty());
    assert!(builder.supports_language(Language::Rust));
    assert!(!builder.supports_language(Language::Zig));
    assert!(!builder.supports_language(Language::Unknown));
    for &lang in listed.iter() {
        assert!(builder.supports_language(lang));
    }
}

#[test]
fn parser_registry_count_matches_supported_languages() {
    let registry = ParserRegistry::global();
    assert_eq!(
        registry.language_count(),
        registry.supported_languages().len(),
        "language_count must equal the number of supported languages"
    );
}

#[test]
fn parser_registry_lists_registered_grammars() {
    let registry = ParserRegistry::global();
    assert!(registry.language_count() >= 1);
    assert!(registry.supported_languages().iter().any(|l| *l == Language::Rust), "Rust must be listed");
    assert!(registry.supports(Language::Rust));
    assert!(registry.get(Language::Rust).is_some());
}

#[test]
fn test_registry_creation() {
    let registry = ParserRegistry::global();
    let _ = registry.language_count();
}

#[test]
fn test_rust_parser_available() {
    let registry = ParserRegistry::global();
    assert!(registry.supports(Language::Rust));
    assert!(registry.get(Language::Rust).is_some());
}

#[test]
fn test_python_parser_available() {
    let registry = ParserRegistry::global();
    assert!(registry.supports(Language::Python));
    assert!(registry.get(Language::Python).is_some());
}

#[test]
fn test_unknown_language_not_supported() {
    let registry = ParserRegistry::global();
    assert!(!registry.supports(Language::Unknown));
    assert!(registry.get(Language::Unknown).is_none());
}

#[test]
fn registry_holds_sixteen_grammars() {
    let registry = ParserRegistry::global();
    assert_eq!(registry.language_count(), 16);
    for lang in [Language::Rholang, Language::MeTTa, Language::Zig, Language::Unknown] {
        assert!(!registry.supports(lang));
    }
}

#[test]
fn test_mapper_creation() {
    let mapper = NodeMapper::new(Language::Rust);
    assert_eq!(mapper.language(), Language::Rust);
}

#[test]
fn test_should_include() {
    let mapper = NodeMapper::new(Language::Rust);
    assert!(!mapper.should_include("(", false));
    assert!(!mapper.should_include(")", false));
    assert!(!mapper.should_include("{", false));
    assert!(!mapper.should_include(",", false));
    assert!(!mapper.should_include("line_comment", false));
    assert!(!mapper.should_include("block_comment", false));
    assert!(mapper.should_include("line_comment", true));
    assert!(mapper.should_include("block_comment", true));
    assert!(mapper.should_include("function_item", false));
    assert!(mapper.should_include("identifier", false));
}

#[test]
fn metta_should_include_flattens_wrappers() {
    let mapper = NodeMapper::new(Language::MeTTa);
    assert!(!mapper.should_include("expression", false));
    assert!(!mapper.should_include("atom_expression", false));
    assert!(!mapper.should_include("prefixed_expression", false));
    assert!(mapper.should_include("list", false));
    assert!(mapper.should_include("identifier", false));
    assert!(mapper.should_include("variable", false));
}

#[test]
fn rholang_should_include_keeps_rules_and_drops_containers() {
    let mapper = NodeMapper::new(Language::Rholang);
    assert!(mapper.should_include("contract", false), "contract RULE kept");
    assert!(mapper.should_include("match", false), "match RULE kept");
    assert!(mapper.should_include("send", false), "send kept");
    assert!(!mapper.should_include("names", false), "names container dropped");
    assert!(!mapper.should_include("send_single", false), "arity marker dropped");
}

#[test]
fn test_builder_creation() {
    let builder = TreeSitterCpgBuilder::new();
    let supported = builder.supported_languages();
    assert!(!supported.is_empty());
}

#[test]
fn test_build_rust() {
    let builder = TreeSitterCpgBuilder::new();
    let source = "fn main() { println!(\"hello\"); }";
    let cpg = builder.build(source, Language::Rust).expect("build should succeed");
    assert!(cpg.node_count() > 1);
    assert_eq!(cpg.language(), Language::Rust);
}

#[test]
fn test_build_python() {
    let builder = TreeSitterCpgBuilder::new();
    let source = "def main():\n    print('hello')";
    let cpg = builder.build(source, Language::Python).expect("build should succeed");
    assert!(cpg.node_count() > 1);
    assert_eq!(cpg.language(), Language::Python);
}

#[test]
fn test_build_javascript() {
    let builder = TreeSitterCpgBuilder::new();
    let source = "function main() { console.log('hello'); }";
    let cpg = builder.build(source, Language::JavaScript).expect("build should succeed");
    assert!(cpg.node_count() > 1);
    assert_eq!(cpg.language(), Language::JavaScript);
}

#[test]
fn test_config() {
    let config = CpgBuilderConfig::new().with_source(true).with_cfg(true).with_dfg(false).with_comments(true);
    let builder = TreeSitterCpgBuilder::with_config(config);
    assert!(builder.config().retain_source);
    assert!(builder.config().build_cfg);
    assert!(!builder.config().build_dfg);
    assert!(builder.config().include_comments);
}

#[test]
fn test_file_size_limit() {
    let config = CpgBuilderConfig::new().with_max_file_size(10);
    let builder = TreeSitterCpgBuilder::with_config(config);
    let source = "fn main() { }";
    let result = builder.build(source, Language::Rust);
    assert!(result.is_err());
}

#[test]
fn file_size_limit_message_names_the_limit() {
    let builder = TreeSitterCpgBuilder::with_config(CpgBuilderConfig::new().with_max_file_size(10));
    match builder.build("fn main() { }", Language::Rust) {
        Err(Error::Construction(m)) => assert_eq!(m, "Source file exceeds maximum size of 10 bytes"),
        other => panic!("expected a construction error, got {other:?}"),
    }
    let exact = TreeSitterCpgBuilder::with_config(CpgBuilderConfig::new().with_max_file_size(13));
    assert!(exact.build("fn main() { }", Language::Rust).is_ok(), "a source of exactly the limit is accepted");
}

#[test]
fn test_unsupported_language() {
    let builder = TreeSitterCpgBuilder::new();
    let result = builder.build("code", Language::Unknown);
    assert!(result.is_err());
}

#[test]
fn unsupported_language_error_names_the_language() {
    let builder = TreeSitterCpgBuilder::new();
    match builder.build("x", Language::Zig) {
        Err(Error::UnsupportedLanguage(name)) => assert_eq!(name, "Zig"),
        other => panic!("expected an unsupported-language error, got {other:?}"),
    }
}

#[test]
fn test_function_entry_points() {
    let builder = TreeSitterCpgBuilder::new();
    let source = r#"
        fn foo() {}
        fn bar() {}
    "#;
    let cpg = builder.build(source, Language::Rust).expect("build should succeed");
    let entry_points: Vec<_> = cpg.cfg_entries().iter().copied().collect();
    assert_eq!(entry_points.len(), 2);
}

#[test]
fn test_build_from_tree_matches_build() {
    let source = "fn main() { let x = 1; let y = x; }";
    assert!(ParserRegistry::global().get(Language::Rust).is_some(), "rust grammar should be registered");
    let builder = TreeSitterCpgBuilder::new();
    let tree = builder.parse_source(source, Language::Rust).expect("parse should succeed");
    let st = syntax_tree(&tree, source).expect("the tree matches its source");

    let from_tree = builder.build_from_tree(&st, Language::Rust).expect("build_from_tree should succeed");
    let from_source = builder.build(source, Language::Rust).expect("build should succeed");
    assert!(from_tree.node_count() > 1);
    assert_eq!(from_tree.node_count(), from_source.node_count());
    assert_eq!(from_tree.edge_count(), from_source.edge_count());
    assert_eq!(from_tree.language(), Language::Rust);
}

#[test]
fn test_retain_source() {
    let config = CpgBuilderConfig::new().with_source(true);
    let builder = TreeSitterCpgBuilder::with_config(config);
    let source = "fn main() {}";
    let cpg = builder.build(source, Language::Rust).expect("build should succeed");
    assert!(cpg.source_code().is_some());
    assert_eq!(cpg.source_code().unwrap(), source);
}

#[test]
fn source_is_dropped_unless_retained() {
    let cpg = TreeSitterCpgBuilder::new().build("fn main() {}", Language::Rust).expect("build");
    assert!(cpg.source_code().is_none());
    assert!(cpg.source_path().is_none());
}

#[test]
fn every_listed_language_builds() {
    let builder = TreeSitterCpgBuilder::new();
    let samples = [
        (Language::Rust, "fn f() {}"),
        (Language::Python, "def f():\n    pass\n"),
        (Language::JavaScript, "function f() {}"),
        (Language::TypeScript, "function f(): void {}"),
        (Language::Go, "package main\nfunc f() {}\n"),
        (Language::Java, "class A { void f() {} }"),
        (Language::C, "int f(void) { return 0; }"),
        (Language::Cpp, "int f() { return 0; }"),
        (Language::Json, "{\"a\": 1}"),
        (Language::Html, "<p>hi</p>"),
        (Language::Css, "a { color: red; }"),
        (Language::Bash, "echo hi"),
        (Language::Toml, "a = 1"),
        (Language::Yaml, "a: 1"),
        (Language::Markdown, "# Title"),
        (Language::Ruby, "def f\nend\n"),
    ];
    for (lang, src) in samples {
        let cpg = builder.build(src, lang).unwrap_or_else(|e| panic!("{lang:?} failed: {e:?}"));
        assert!(cpg.node_count() >= 1, "{lang:?} has a root");
        assert_eq!(cpg.language(), lang);
    }
}

#[test]
fn rust_functions_become_function_nodes() {
    let cpg = TreeSitterCpgBuilder::new().build("fn alpha() {} fn beta() {}", Language::Rust).expect("build");
    let names: Vec<String> = cpg
        .functions()
        .iter()
        .filter_map(|id| match &cpg.node(*id).expect("function node").kind {
            CpgNodeKind::Function { signature } => Some(signature.name.clone()),
            _ => None,
        })
        .collect();
    assert_eq!(names, vec!["alpha".to_string(), "beta".to_string()]);
}

#[test]
fn language_names_and_extensions() {
    assert_eq!(Language::Rust.name(), "Rust");
    assert_eq!(Language::Cpp.name(), "C++");
    assert_eq!(Language::from_extension("rs"), Language::Rust);
    assert_eq!(Language::from_extension("py"), Language::Python);
    assert_eq!(Language::from_extension("zzz"), Language::Unknown);
}

#[test]
fn the_syntax_graph_joins_each_node_to_its_parent_in_creation_order() {
    let config = CpgBuilderConfig { build_cfg: false, build_dfg: false, ..CpgBuilderConfig::default() };
    let g = TreeSitterCpgBuilder::with_config(config).build("fn f(a: i32) { let b = a; }", Language::Rust).unwrap();
    let mut expected = Vec::new();
    for (k, node) in g.nodes().iter().enumerate() {
        assert_eq!(node.id.as_u32() as usize, k);
        if let Some(p) = node.parent {
            assert!((p.as_u32() as usize) < k, "a parent is created before its children");
            expected.push((p, node.id));
        }
    }
    let edges: Vec<_> = g.edges().iter().map(|e| (e.source, e.target)).collect();
    assert_eq!(edges, expected);
    assert!(g.nodes().len() > 3);
}

#[test]
fn parsing_an_unregistered_language_is_refused_with_its_name() {
    let builder = TreeSitterCpgBuilder::new();
    match builder.parse_source("x", Language::Rholang) {
        Err(Error::UnsupportedLanguage(name)) => assert_eq!(name, Language::Rholang.name()),
        Err(other) => panic!("unexpected error {other:?}"),
        Ok(_) => panic!("no grammar is registered for Rholang"),
    }
}

#[test]
fn the_read_tree_has_the_parse_root_and_its_children() {
    let source = "fn main() {}";
    let builder = TreeSitterCpgBuilder::new();
    let tree = builder.parse_source(source, Language::Rust).expect("parse should succeed");
    let st = syntax_tree(&tree, source).expect("the tree matches its source");
    assert!(st.len() > 1);
}

fn languages_of<B: CpgBuilder>(builder: &B) -> Vec<Language> {
    builder.supported_languages()
}

#[test]
fn the_builder_trait_reaches_the_tree_sitter_builder() {
    let builder = TreeSitterCpgBuilder::new();
    assert!(CpgBuilder::supports_language(&builder, Language::Rust));
    assert!(!CpgBuilder::supports_language(&builder, Language::Rholang));
    assert_eq!(languages_of(&builder).len(), 16);
    let g = CpgBuilder::build(&builder, "fn main() {}", Language::Rust).expect("build through the trait");
    assert!(g.node_count() > 1);
}

fn literal_kinds(source: &str) -> Vec<libcpg::graph::LiteralKind> {
    let g = TreeSitterCpgBuilder::new().build(source, Language::Rust).expect("build should succeed");
    g.nodes()
        .iter()
        .filter_map(|n| match &n.kind {
            CpgNodeKind::Literal { kind } => Some(kind.clone()),
            _ => None,
        })
        .collect()
}

#[test]
fn number_literals_drop_their_underscores() {
    let kinds = literal_kinds("fn main() { let a = 1_000_000; let b = 0xff_ff; let c = 2.5_0; }");
    assert!(kinds.iter().any(|k| matches!(k, libcpg::graph::LiteralKind::Integer(1000000))), "{kinds:?}");
    assert!(kinds.iter().any(|k| matches!(k, libcpg::graph::LiteralKind::Integer(65535))), "{kinds:?}");
    assert!(kinds.iter().any(|k| matches!(k, libcpg::graph::LiteralKind::Float(f) if f == "2.50")), "{kinds:?}");
}

#[test]
fn char_literals_lose_their_quotes() {
    let kinds = literal_kinds("fn main() { let c = 'q'; }");
    assert!(kinds.iter().any(|k| matches!(k, libcpg::graph::LiteralKind::Char('q'))), "{kinds:?}");
}

#[test]
fn radix_literals_and_overflow() {
    let kinds = literal_kinds("fn main() { let a = 0b101; let b = 0o17; let c = 99999999999999999999; }");
    assert!(kinds.iter().any(|k| matches!(k, libcpg::graph::LiteralKind::Integer(5))), "{kinds:?}");
    assert!(kinds.iter().any(|k| matches!(k, libcpg::graph::LiteralKind::Integer(15))), "{kinds:?}");
    assert!(kinds.iter().any(|k| matches!(k, libcpg::graph::LiteralKind::Integer(0))), "an out-of-range literal reads as 0: {kinds:?}");
}
