//! Python.
use tree_sitter::Language as Grammar;
use vstd::prelude::*;

use super::{Language, Mode, Strategy};
use crate::text::words_of;

verus! {

/// `tree_sitter_python::LANGUAGE`, made a grammar by `Language::new`: the grammar of
/// Python.
#[verifier::external_body]
fn grammar() -> (language: Grammar) {
    Grammar::new(tree_sitter_python::LANGUAGE)
}

impl Language {
    /// Creates a language parser for Python
    pub fn python() -> (language: Self)
        ensures
            language@.name == "python"@,
            language@.detections == seq!["*.py"@],
            language@.strategy == (Strategy::Generic { kinds: seq!["string_content"@] }),
    {
        let detections = vec!["*.py"];
        let tree_sitter_types = vec!["string_content"];
        assert(words_of(detections@) =~= seq!["*.py"@]);
        assert(words_of(tree_sitter_types@) =~= seq!["string_content"@]);
        Language::new("python", detections, Mode::Generic { language: grammar(), tree_sitter_types })
    }
}

} // verus!
