//! C.
use tree_sitter::Language as Grammar;
use vstd::prelude::*;

use super::{Language, Mode, Strategy};
use crate::text::words_of;

verus! {

/// `tree_sitter_c::LANGUAGE`, made a grammar by `Language::new`: the grammar of
/// C.
#[verifier::external_body]
fn grammar() -> (language: Grammar) {
    Grammar::new(tree_sitter_c::LANGUAGE)
}

impl Language {
    /// Creates a language parser for C
    pub fn c() -> (language: Self)
        ensures
            language@.name == "c"@,
            language@.detections == seq!["*.[chH]"@, "*.[chH].in"@],
            language@.strategy == (Strategy::Generic { kinds: seq!["string_content"@] }),
    {
        let detections = vec!["*.[chH]", "*.[chH].in"];
        let tree_sitter_types = vec!["string_content"];
        assert(words_of(detections@) =~= seq!["*.[chH]"@, "*.[chH].in"@]);
        assert(words_of(tree_sitter_types@) =~= seq!["string_content"@]);
        Language::new("c", detections, Mode::Generic { language: grammar(), tree_sitter_types })
    }
}

} // verus!
