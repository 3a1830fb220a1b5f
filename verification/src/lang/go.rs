//! Go.
use tree_sitter::Language as Grammar;
use vstd::prelude::*;

use super::{Language, Mode, Strategy};
use crate::text::words_of;

verus! {

/// `tree_sitter_go::LANGUAGE`, made a grammar by `Language::new`: the grammar of
/// Go.
#[verifier::external_body]
fn grammar() -> (language: Grammar) {
    Grammar::new(tree_sitter_go::LANGUAGE)
}

impl Language {
    /// Creates a language parser for Go
    pub fn go() -> (language: Self)
        ensures
            language@.name == "go"@,
            language@.detections == seq!["*.go"@],
            language@.strategy == (Strategy::Generic { kinds: seq!["interpreted_string_literal"@] }),
    {
        let detections = vec!["*.go"];
        let tree_sitter_types = vec!["interpreted_string_literal"];
        assert(words_of(detections@) =~= seq!["*.go"@]);
        assert(words_of(tree_sitter_types@) =~= seq!["interpreted_string_literal"@]);
        Language::new("go", detections, Mode::Generic { language: grammar(), tree_sitter_types })
    }
}

} // verus!
