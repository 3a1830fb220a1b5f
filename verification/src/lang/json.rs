//! JSON.
use tree_sitter::Language as Grammar;
use vstd::prelude::*;

use super::{Language, Mode, Strategy};
use crate::text::words_of;

verus! {

/// `tree_sitter_json::LANGUAGE`, made a grammar by `Language::new`: the grammar of
/// JSON.
#[verifier::external_body]
fn grammar() -> (language: Grammar) {
    Grammar::new(tree_sitter_json::LANGUAGE)
}

impl Language {
    /// Creates a language parser for JSON
    pub fn json() -> (language: Self)
        ensures
            language@.name == "json"@,
            language@.detections == seq!["*.json"@],
            language@.strategy == (Strategy::Generic { kinds: seq!["string_content"@] }),
    {
        let detections = vec!["*.json"];
        let tree_sitter_types = vec!["string_content"];
        assert(words_of(detections@) =~= seq!["*.json"@]);
        assert(words_of(tree_sitter_types@) =~= seq!["string_content"@]);
        Language::new("json", detections, Mode::Generic { language: grammar(), tree_sitter_types })
    }
}

} // verus!
