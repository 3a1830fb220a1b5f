//! TOML.
use tree_sitter::Language as Grammar;
use vstd::prelude::*;

use super::{Language, Mode, Strategy};
use crate::text::words_of;

verus! {

/// `tree_sitter_toml_ng::LANGUAGE`, made a grammar by `Language::new`: the grammar of
/// TOML.
#[verifier::external_body]
fn grammar() -> (language: Grammar) {
    Grammar::new(tree_sitter_toml_ng::LANGUAGE)
}

impl Language {
    /// Creates a language parser for TOML
    pub fn toml() -> (language: Self)
        ensures
            language@.name == "toml"@,
            language@.detections == seq!["*.toml"@],
            language@.strategy == (Strategy::Generic { kinds: seq!["string"@] }),
    {
        let detections = vec!["*.toml"];
        let tree_sitter_types = vec!["string"];
        assert(words_of(detections@) =~= seq!["*.toml"@]);
        assert(words_of(tree_sitter_types@) =~= seq!["string"@]);
        Language::new("toml", detections, Mode::Generic { language: grammar(), tree_sitter_types })
    }
}

} // verus!
