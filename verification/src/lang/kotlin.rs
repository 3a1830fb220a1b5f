//! Kotlin.
//!
//! The grammar is taken from the package `tree-sitter-kotlin-sg`, which binds
//! the grammar of `tree-sitter-kotlin` to the parser of this version: the
//! package `tree-sitter-kotlin` itself is built for an older parser, whose
//! grammars this one does not take.
use tree_sitter::Language as Grammar;
use vstd::prelude::*;

use super::{Language, Mode, Strategy};
use crate::text::words_of;

verus! {

/// `tree_sitter_kotlin_sg::LANGUAGE`, made a grammar by `Language::new`: the grammar of
/// Kotlin.
#[verifier::external_body]
fn grammar() -> (language: Grammar) {
    Grammar::new(tree_sitter_kotlin_sg::LANGUAGE)
}

impl Language {
    /// Creates a language parser for Kotlin
    pub fn kotlin() -> (language: Self)
        ensures
            language@.name == "kotlin"@,
            language@.detections == seq!["*.kt"@, "*.kts"@],
            language@.strategy == (Strategy::Generic { kinds: seq!["string_content"@] }),
    {
        let detections = vec!["*.kt", "*.kts"];
        let tree_sitter_types = vec!["string_content"];
        assert(words_of(detections@) =~= seq!["*.kt"@, "*.kts"@]);
        assert(words_of(tree_sitter_types@) =~= seq!["string_content"@]);
        Language::new("kotlin", detections, Mode::Generic { language: grammar(), tree_sitter_types })
    }
}

} // verus!
