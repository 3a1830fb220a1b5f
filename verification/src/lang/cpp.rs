//! C++.
use tree_sitter::Language as Grammar;
use vstd::prelude::*;

use super::{Language, Mode, Strategy};
use crate::text::words_of;

verus! {

/// `tree_sitter_cpp::LANGUAGE`, made a grammar by `Language::new`: the grammar of
/// C++.
#[verifier::external_body]
fn grammar() -> (language: Grammar) {
    Grammar::new(tree_sitter_cpp::LANGUAGE)
}

impl Language {
    /// Creates a language parser for C++
    pub fn cpp() -> (language: Self)
        ensures
            language@.name == "cpp"@,
            language@.detections == seq!["*.cpp"@, "*.cc"@, "*.cxx"@, "*.hpp"@, "*.hh"@, "*.hxx"@],
            language@.strategy == (Strategy::Generic { kinds: seq!["string_content"@] }),
    {
        let detections = vec!["*.cpp", "*.cc", "*.cxx", "*.hpp", "*.hh", "*.hxx"];
        let tree_sitter_types = vec!["string_content"];
        assert(words_of(detections@) =~= seq!["*.cpp"@, "*.cc"@, "*.cxx"@, "*.hpp"@, "*.hh"@, "*.hxx"@]);
        assert(words_of(tree_sitter_types@) =~= seq!["string_content"@]);
        Language::new("cpp", detections, Mode::Generic { language: grammar(), tree_sitter_types })
    }
}

} // verus!
