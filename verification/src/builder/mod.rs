//! Building graphs from source: parsing, mapping grammar kinds to node kinds,
//! and the control-flow, data-flow and dependence passes.

pub mod cfg;
pub mod cfg_rules;
pub mod dfg;
pub mod dfg_rules;
pub mod node_mapper;
pub mod parse;
pub mod parser_registry;
pub mod pdg;
pub mod ts_builder;

use vstd::prelude::*;
use crate::error::Error;
use crate::graph::{CodePropertyGraph, Language};

verus! {

/// Something that builds graphs from source text.
pub trait CpgBuilder {
    /// The languages the builder parses, in the order it lists them.
    spec fn languages_view(&self) -> Seq<Language>;

    /// Builds the graph of `source`, written in `language`.
    fn build(&self, source: &str, language: Language) -> Result<CodePropertyGraph, Error>;

    /// The languages the builder parses.
    fn supported_languages(&self) -> (r: Vec<Language>)
        ensures
            r@ == self.languages_view(),
    ;

    /// Whether the builder parses `language`.
    fn supports_language(&self, language: Language) -> (r: bool)
        ensures
            r == self.languages_view().contains(language),
    {
        let langs = self.supported_languages();
        let mut i: usize = 0;
        while i < langs.len()
            invariant
                langs@ == self.languages_view(),
                i <= langs@.len(),
                forall|k: int| 0 <= k < i ==> langs@[k] != language,
            decreases langs@.len() - i,
        {
            if langs[i] == language {
                assert(langs@[i as int] == language);
                return true;
            }
            i = i + 1;
        }
        false
    }
}

/// Options of graph construction.
#[derive(Clone, Copy, Debug, PartialEq, Eq, Structural)]
pub struct CpgBuilderConfig {
    /// Keep the source text in the graph.
    pub retain_source: bool,
    /// Add control-flow edges.
    pub build_cfg: bool,
    /// Add data-flow edges.
    pub build_dfg: bool,
    /// Keep comment nodes.
    pub include_comments: bool,
    /// Largest source accepted, in bytes.
    pub max_file_size: usize,
    /// Resolve references across files.
    pub resolve_imports: bool,
}

/// The default options: control and data flow on, source and comments off,
/// sources up to 10 MiB.
pub open spec fn default_config() -> CpgBuilderConfig {
    CpgBuilderConfig {
        retain_source: false,
        build_cfg: true,
        build_dfg: true,
        include_comments: false,
        max_file_size: 10485760,
        resolve_imports: false,
    }
}

impl Default for CpgBuilderConfig {
    fn default() -> (r: Self)
        ensures
            r == default_config(),
    {
        CpgBuilderConfig {
            retain_source: false,
            build_cfg: true,
            build_dfg: true,
            include_comments: false,
            max_file_size: 10 * 1024 * 1024,
            resolve_imports: false,
        }
    }
}

impl CpgBuilderConfig {
    /// The default options.
    pub fn new() -> (r: Self)
        ensures
            r == default_config(),
    {
        Self::default()
    }

    /// The same options, keeping the source text or not.
    pub fn with_source(self, retain: bool) -> (r: Self)
        ensures
            r == (CpgBuilderConfig { retain_source: retain, ..self }),
    {
        CpgBuilderConfig { retain_source: retain, ..self }
    }

    /// The same options, with control flow or not.
    pub fn with_cfg(self, build: bool) -> (r: Self)
        ensures
            r == (CpgBuilderConfig { build_cfg: build, ..self }),
    {
        CpgBuilderConfig { build_cfg: build, ..self }
    }

    /// The same options, with data flow or not.
    pub fn with_dfg(self, build: bool) -> (r: Self)
        ensures
            r == (CpgBuilderConfig { build_dfg: build, ..self }),
    {
        CpgBuilderConfig { build_dfg: build, ..self }
    }

    /// The same options, keeping comments or not.
    pub fn with_comments(self, keep: bool) -> (r: Self)
        ensures
            r == (CpgBuilderConfig { include_comments: keep, ..self }),
    {
        CpgBuilderConfig { include_comments: keep, ..self }
    }

    /// The same options with another size limit.
    pub fn with_max_file_size(self, size: usize) -> (r: Self)
        ensures
            r == (CpgBuilderConfig { max_file_size: size, ..self }),
    {
        CpgBuilderConfig { max_file_size: size, ..self }
    }

    /// The same options, resolving imports or not.
    pub fn with_import_resolution(self, resolve: bool) -> (r: Self)
        ensures
            r == (CpgBuilderConfig { resolve_imports: resolve, ..self }),
    {
        CpgBuilderConfig { resolve_imports: resolve, ..self }
    }
}

} // verus!
