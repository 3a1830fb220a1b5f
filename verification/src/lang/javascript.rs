//! JavaScript.
use tree_sitter::Language as Grammar;
use vstd::prelude::*;

use super::{Language, Mode, Strategy};
use crate::text::words_of;

verus! {

/// `tree_sitter_javascript::LANGUAGE`, made a grammar by `Language::new`: the grammar of
/// JavaScript.
#[verifier::external_body]
fn grammar() -> (language: Grammar) {
    Grammar::new(tree_sitter_javascript::LANGUAGE)
}

impl Language {
    /// Creates a language parser for JavaScript
    pub fn javascript() -> (language: Self)
        ensures
            language@.name == "javascript"@,
            language@.detections == seq!["*.js"@],
            language@.strategy == (Strategy::Generic { kinds: seq!["string_fragment"@] }),
    {
        let detections = vec!["*.js"];
        let tree_sitter_types = vec!["string_fragment"];
        assert(words_of(detections@) =~= seq!["*.js"@]);
        assert(words_of(tree_sitter_types@) =~= seq!["string_fragment"@]);
        Language::new("javascript", detections, Mode::Generic { language: grammar(), tree_sitter_types })
    }
}

} // verus!
