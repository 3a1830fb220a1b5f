//! Regular expressions that keep a string from being checked.
use regex::Regex;
use vstd::prelude::*;

verus! {

/// `regex::Regex`: a compiled regular expression.
#[verifier::external_type_specification]
#[verifier::external_body]
pub struct ExRegex(Regex);

/// A regular expression together with the text it was written as.
///
/// Two patterns are the same when their texts are.
#[derive(Debug)]
pub struct IgnorePattern {
    source: String,
    regex: Regex,
}

impl View for IgnorePattern {
    type V = Seq<char>;

    closed spec fn view(&self) -> Seq<char> {
        self.source@
    }
}

/// The texts in which `regex` finds a match.
pub uninterp spec fn matched_by(regex: Regex) -> Set<Seq<char>>;

/// What `Regex::new` makes of `source`: the texts in which the expression
/// finds a match, or nothing where `source` is no expression or is too large
/// when compiled.
pub uninterp spec fn regex_of(source: Seq<char>) -> Option<Set<Seq<char>>>;

/// `Regex::new`: the compiled expression, or nothing where the text is not one
/// or is too large when compiled. Which of the two it is, and in which texts
/// the expression finds a match, is what `regex_of` names.
#[verifier::external_body]
fn compile(source: &str) -> (regex: Option<Regex>)
    ensures
        match regex {
            Some(r) => regex_of(source@) == Some(matched_by(r)),
            None => regex_of(source@) is None,
        },
{
    Regex::new(source).ok()
}

/// `Regex::clone`: another handle on the same compiled expression, which
/// finds a match in the same texts.
#[verifier::external_body]
fn duplicate(regex: &Regex) -> (copy: Regex)
    ensures
        matched_by(copy) == matched_by(*regex),
{
    regex.clone()
}

/// `Regex::is_match`: whether the expression matches anywhere in `haystack`.
#[verifier::external_body]
fn matches(regex: &Regex, haystack: &str) -> (found: bool)
    ensures
        found == matched_by(*regex).contains(haystack@),
{
    regex.is_match(haystack)
}

impl IgnorePattern {
    /// The texts in which the pattern finds a match.
    pub closed spec fn matched(&self) -> Set<Seq<char>> {
        matched_by(self.regex)
    }

    /// Whether the pattern matches anywhere in `haystack`.
    pub open spec fn matches(&self, haystack: Seq<char>) -> bool {
        self.matched().contains(haystack)
    }

    /// Compiles `source`. Gives nothing where the regex engine refuses it;
    /// else the pattern is written as `source` and matches what the regex of
    /// `source` matches.
    pub fn new(source: &str) -> (pattern: Option<Self>)
        ensures
            pattern is Some <==> regex_of(source@) is Some,
            pattern matches Some(p) ==> p@ == source@ && regex_of(source@) == Some(p.matched()),
    {
        match compile(source) {
            Some(regex) => Some(IgnorePattern { source: source.to_owned(), regex }),
            None => None,
        }
    }

    /// The text the pattern was written as.
    pub fn as_str(&self) -> (source: &str)
        ensures
            source@ == self@,
    {
        self.source.as_str()
    }

    /// Whether the pattern matches anywhere in `haystack`.
    pub fn is_match(&self, haystack: &str) -> (found: bool)
        ensures
            found == self.matches(haystack@),
    {
        matches(&self.regex, haystack)
    }
}

impl Clone for IgnorePattern {
    fn clone(&self) -> (copy: Self)
        ensures
            copy@ == self@,
            copy.matched() == self.matched(),
    {
        IgnorePattern { source: self.source.clone(), regex: duplicate(&self.regex) }
    }
}

impl PartialEq for IgnorePattern {
    fn eq(&self, other: &Self) -> (equal: bool) {
        self.source == other.source
    }
}

impl vstd::std_specs::cmp::PartialEqSpecImpl for IgnorePattern {
    open spec fn obeys_eq_spec() -> bool {
        true
    }

    open spec fn eq_spec(&self, other: &Self) -> bool {
        self@ == other@
    }
}

impl Eq for IgnorePattern {

}

/// The texts of `patterns`, in order.
pub open spec fn pattern_texts(patterns: Seq<IgnorePattern>) -> Seq<Seq<char>> {
    patterns.map_values(|p: IgnorePattern| p@)
}

/// Whether one of `patterns` matches anywhere in `haystack`.
pub open spec fn any_matches(patterns: Seq<IgnorePattern>, haystack: Seq<char>) -> bool {
    exists|i: int| 0 <= i < patterns.len() && (#[trigger] patterns[i]).matches(haystack)
}

/// Whether one of `patterns` matches anywhere in `haystack`.
pub fn any_match(patterns: &Vec<IgnorePattern>, haystack: &str) -> (found: bool)
    ensures
        found == any_matches(patterns@, haystack@),
        patterns.len() == 0 ==> !found,
{
    let mut i: usize = 0;
    while i < patterns.len()
        invariant
            i <= patterns.len(),
            forall|k: int| 0 <= k < i ==> !(#[trigger] patterns[k]).matches(haystack@),
        decreases patterns.len() - i,
    {
        if patterns[i].is_match(haystack) {
            return true;
        }
        i += 1;
    }
    false
}

} // verus!
