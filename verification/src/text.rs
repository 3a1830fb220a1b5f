//! Text as the standard library handles it.
use vstd::prelude::*;
use vstd::utf8::{decode_utf8, valid_utf8};

verus! {

/// The text that `String::from_utf8_lossy` reads out of `bytes`: the text they
/// encode in UTF-8, with U+FFFD in the place of what is no UTF-8.
pub uninterp spec fn lossy_utf8(bytes: Seq<u8>) -> Seq<char>;

/// `String::from_utf8_lossy`: the text of `bytes`, in a `String` of its own.
/// Bytes that are UTF-8 throughout give the text they encode.
#[verifier::external_body]
pub(crate) fn lossy_text(bytes: &[u8]) -> (text: String)
    ensures
        text@ == lossy_utf8(bytes@),
        valid_utf8(bytes@) ==> text@ == decode_utf8(bytes@),
{
    String::from_utf8_lossy(bytes).into_owned()
}

/// `str::eq`: whether two texts are the same.
#[verifier::external_body]
pub(crate) fn same_text(a: &str, b: &str) -> (same: bool)
    ensures
        same == (a@ == b@),
{
    a == b
}

/// The texts of `words`, in order.
pub open spec fn words_of(words: Seq<&str>) -> Seq<Seq<char>> {
    words.map_values(|w: &str| w@)
}

/// Whether `word` is one of `words`.
pub fn is_one_of(word: &str, words: &[&str]) -> (found: bool)
    ensures
        found == words_of(words@).contains(word@),
{
    let mut i: usize = 0;
    while i < words.len()
        invariant
            i <= words.len(),
            forall|k: int| 0 <= k < i ==> (#[trigger] words@[k])@ != word@,
        decreases words.len() - i,
    {
        if same_text(words[i], word) {
            assert(words_of(words@)[i as int] == word@);
            return true;
        }
        i += 1;
    }
    assert forall|k: int| 0 <= k < words_of(words@).len() implies words_of(words@)[k] != word@ by {
        assert(words@[k]@ != word@);
    }
    false
}

} // verus!
