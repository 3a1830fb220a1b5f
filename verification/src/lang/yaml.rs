//! YAML.
use tree_sitter::Language as Grammar;
use vstd::prelude::*;

use super::{Language, Mode, Strategy};
use crate::text::words_of;

verus! {

/// `tree_sitter_yaml::LANGUAGE`, made a grammar by `Language::new`: the grammar of
/// YAML.
#[verifier::external_body]
fn grammar() -> (language: Grammar) {
    Grammar::new(tree_sitter_yaml::LANGUAGE)
}

impl Language {
    /// Creates a language parser for YAML
    pub fn yaml() -> (language: Self)
        ensures
            language@.name == "yaml"@,
            language@.detections == seq!["*.yml"@, "*.yaml"@],
            language@.strategy == (Strategy::Generic { kinds: seq!["double_quote_scalar"@] }),
    {
        let detections = vec!["*.yml", "*.yaml"];
        let tree_sitter_types = vec!["double_quote_scalar"];
        assert(words_of(detections@) =~= seq!["*.yml"@, "*.yaml"@]);
        assert(words_of(tree_sitter_types@) =~= seq!["double_quote_scalar"@]);
        Language::new("yaml", detections, Mode::Generic { language: grammar(), tree_sitter_types })
    }
}

} // verus!
