//! TypeScript.
use tree_sitter::Language as Grammar;
use vstd::prelude::*;

use super::{Language, Mode, Strategy};
use crate::text::words_of;

verus! {

/// `tree_sitter_typescript::LANGUAGE_TYPESCRIPT`, made a grammar by `Language::new`: the grammar of
/// TypeScript.
#[verifier::external_body]
fn grammar() -> (language: Grammar) {
    Grammar::new(tree_sitter_typescript::LANGUAGE_TYPESCRIPT)
}

impl Language {
    /// Creates a language parser for TypeScript
    pub fn typescript() -> (language: Self)
        ensures
            language@.name == "typescript"@,
            language@.detections == seq!["*.ts"@],
            language@.strategy == (Strategy::Generic { kinds: seq!["string_fragment"@] }),
    {
        let detections = vec!["*.ts"];
        let tree_sitter_types = vec!["string_fragment"];
        assert(words_of(detections@) =~= seq!["*.ts"@]);
        assert(words_of(tree_sitter_types@) =~= seq!["string_fragment"@]);
        Language::new("typescript", detections, Mode::Generic { language: grammar(), tree_sitter_types })
    }
}

} // verus!
