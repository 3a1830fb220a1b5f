//! Rust.
use tree_sitter::Language as Grammar;
use vstd::prelude::*;
use vstd::string::StringExecFns;

use super::{Language, Mode, Strategy};
use crate::text::words_of;

verus! {

/// `tree_sitter_rust::LANGUAGE`, made a grammar by `Language::new`: the grammar of
/// Rust.
#[verifier::external_body]
fn grammar() -> (language: Grammar) {
    Grammar::new(tree_sitter_rust::LANGUAGE)
}

impl Language {
    /// Creates a language parser for Rust
    ///
    /// Of the strings of a Rust file the ordinary literals are checked: a raw
    /// string holds a pattern or a path rather than prose.
    pub fn rust() -> (language: Self)
        ensures
            language@.name == "rust"@,
            language@.detections == seq!["*.rs"@],
            language@.strategy == (Strategy::Query {
                query: "(string_literal (string_content) @strings)+"@,
                ignore: None,
            }),
    {
        let detections = vec!["*.rs"];
        assert(words_of(detections@) =~= seq!["*.rs"@]);
        Language::new(
            "rust",
            detections,
            Mode::Query {
                language: grammar(),
                query: String::from_str("(string_literal (string_content) @strings)+"),
                ignore_captures: None,
            },
        )
    }
}

} // verus!
