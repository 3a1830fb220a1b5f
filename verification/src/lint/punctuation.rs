//! Typographical mistakes related to punctuation.
//!
//! The one mistake found here is a space *before* a punctuation mark: in English
//! and German typography no space stands before a colon, an exclamation mark, a
//! question mark or an interrobang (`Oh no !` should be `Oh no!`).
//!
//! A space is reported when one of the marks follows it directly, unless what
//! stands around the pair shows that the text is no prose: an operator, an
//! emoticon, a shell test, a query parameter. Only the space that touches the
//! mark is reported, as a span of one byte. Before a colon a run of several
//! spaces is never reported; before the other marks the last space of a run is.
use vstd::prelude::*;

use super::{Fix, Rule, SourceSpan, Typo};
use crate::{NamedSource, SharedSource};

verus! {

/// The byte of a space.
pub const SPACE: u8 = 0x20;

/// A punctuation mark that takes no space before it.
#[derive(Clone, Copy, PartialEq, Eq, Debug, Structural)]
pub enum Mark {
    /// `:`
    Colon,
    /// `!`
    Exclamation,
    /// `?`
    Question,
    /// `‽`
    Interrobang,
    /// `⸘`
    InvertedInterrobang,
}

impl Mark {
    /// The character of the mark.
    pub open spec fn symbol(self) -> char {
        match self {
            Mark::Colon => ':',
            Mark::Exclamation => '!',
            Mark::Question => '?',
            Mark::Interrobang => '\u{203D}',
            Mark::InvertedInterrobang => '\u{2E18}',
        }
    }

    /// The bytes of the mark in UTF-8.
    pub open spec fn encoding(self) -> Seq<u8> {
        match self {
            Mark::Colon => seq![':' as u8],
            Mark::Exclamation => seq!['!' as u8],
            Mark::Question => seq!['?' as u8],
            Mark::Interrobang => seq![0xE2u8, 0x80u8, 0xBDu8],
            Mark::InvertedInterrobang => seq![0xE2u8, 0xB8u8, 0x98u8],
        }
    }

    /// The character of the mark.
    pub fn as_char(self) -> (c: char)
        ensures
            c == self.symbol(),
    {
        match self {
            Mark::Colon => ':',
            Mark::Exclamation => '!',
            Mark::Question => '?',
            Mark::Interrobang => '\u{203D}',
            Mark::InvertedInterrobang => '\u{2E18}',
        }
    }
}

/// A space *before* a punctuation mark has been detected.
///
/// In English and German typography, one must not put a space before a colon
/// (`:`), a question mark (`?`), an exclamation mark (`!`), or an interrobang
/// (`‽`): `Oh no !` should be `Oh no!`, and `a list of things :` should be
/// `a list of things:`.
pub struct TypoSpaceBeforePunctuationMarks {
    src: Option<SharedSource>,
    span: SourceSpan,
    help: String,
}

/// What a [`TypoSpaceBeforePunctuationMarks`] holds.
pub struct TypoView {
    /// The source the span points into, once it is known.
    pub source: Option<NamedSource>,
    /// Where the space stands.
    pub span: SourceSpan,
    /// How to mend the text.
    pub help: Seq<char>,
}

impl View for TypoSpaceBeforePunctuationMarks {
    type V = TypoView;

    closed spec fn view(&self) -> TypoView {
        TypoView {
            source: match self.src {
                Some(src) => Some(src@),
                None => None,
            },
            span: self.span,
            help: self.help@,
        }
    }
}

/// The advice given for a space before `punctuation_mark`.
pub open spec fn spec_help(punctuation_mark: char) -> Seq<char> {
    "remove the space before `"@ + seq![punctuation_mark] + "`"@
}

/// `format!`: the text of the advice with the mark put between the backticks.
#[verifier::external_body]
fn help_for(punctuation_mark: char) -> (help: String)
    ensures
        help@ == spec_help(punctuation_mark),
{
    format!("remove the space before `{punctuation_mark}`")
}

impl TypoSpaceBeforePunctuationMarks {
    /// A typo at `span`, where a space stands before `punctuation_mark`. It
    /// belongs to no source yet.
    pub fn new(span: SourceSpan, punctuation_mark: char) -> (typo: Self)
        ensures
            typo@ == (TypoView { source: None, span, help: spec_help(punctuation_mark) }),
    {
        TypoSpaceBeforePunctuationMarks { src: None, span, help: help_for(punctuation_mark) }
    }

    /// The code that names this kind of typo.
    pub fn code(&self) -> (code: &'static str)
        ensures
            code@ == "typope::space-before-punctuation-mark"@,
    {
        "typope::space-before-punctuation-mark"
    }

    /// Where the typo is described.
    pub fn url(&self) -> (url: &'static str)
        ensures
            url@ == "https://docs.rs/typope/0.3.0/typope/lint/punctuation/struct.TypoSpaceBeforePunctuationMarks.html"@,
    {
        "https://docs.rs/typope/0.3.0/typope/lint/punctuation/struct.TypoSpaceBeforePunctuationMarks.html"
    }

    /// What is wrong, in one sentence.
    pub fn message(&self) -> (message: &'static str)
        ensures
            message@ == "In English typography there is no space before a punctuation mark"@,
    {
        "In English typography there is no space before a punctuation mark"
    }

    /// What to write at the span when the typo is shown.
    pub fn label(&self) -> (label: &'static str)
        ensures
            label@ == "Invalid space here"@,
    {
        "Invalid space here"
    }

    /// How to mend the text.
    pub fn help(&self) -> (help: &str)
        ensures
            help@ == self@.help,
    {
        self.help.as_str()
    }

    /// The source the span points into, once it is known.
    pub fn source_code(&self) -> (src: Option<&SharedSource>)
        ensures
            src is Some <==> self@.source is Some,
            src matches Some(src) ==> Some(src@) == self@.source,
    {
        self.src.as_ref()
    }
}

impl Typo for TypoSpaceBeforePunctuationMarks {
    open spec fn spec_span(&self) -> SourceSpan {
        self@.span
    }

    open spec fn spec_source(&self) -> Option<NamedSource> {
        self@.source
    }

    open spec fn spec_fix(&self) -> Fix {
        Fix::Remove { span: self@.span }
    }

    fn span(&self) -> (span: SourceSpan) {
        self.span
    }

    fn with_source(&mut self, src: SharedSource, offset: usize)
        ensures
            final(self)@.help == old(self)@.help,
    {
        self.span = SourceSpan::new(self.span.offset() + offset, self.span.len());
        self.src = Some(src);
    }

    fn fix(&self) -> (fix: Fix) {
        Fix::Remove { span: self.span }
    }
}

/// A space to report: where it stands, and the mark that follows it.
pub struct Finding {
    pub offset: int,
    pub mark: Mark,
}

impl Finding {
    /// The typo that reports this finding: one byte at the space, with the
    /// advice for the mark, and no source yet.
    pub open spec fn report(self) -> TypoView {
        TypoView {
            source: None,
            span: SourceSpan { offset: self.offset as usize, length: 1 },
            help: spec_help(self.mark.symbol()),
        }
    }
}

/// Whether `typos` are the reports of `findings`, one for one and in order.
pub open spec fn reports(
    typos: Seq<TypoSpaceBeforePunctuationMarks>,
    findings: Seq<Finding>,
) -> bool {
    &&& typos.len() == findings.len()
    &&& forall|k: int| 0 <= k < typos.len() ==> (#[trigger] typos[k])@ == findings[k].report()
}

/// Which exclusions a rule applies.
#[derive(Clone, Copy, PartialEq, Eq, Debug, Structural)]
pub enum Heuristics {
    /// Those of [`Punctuation`].
    Extended,
    /// The few of [`super::space_before::SpaceBeforePunctuationMarks`].
    Basic,
}

/// Whether `pattern` stands in `s` from index `at` on.
pub open spec fn spec_found_at(s: Seq<u8>, at: int, pattern: Seq<u8>) -> bool {
    &&& 0 <= at
    &&& at + pattern.len() <= s.len()
    &&& forall|j: int| 0 <= j < pattern.len() ==> s[at + j] == #[trigger] pattern[j]
}

/// Whether the ASCII text `word` stands in `s` from index `at` on.
pub open spec fn spec_followed_by(s: Seq<u8>, at: int, word: Seq<char>) -> bool {
    &&& 0 <= at
    &&& at + word.len() <= s.len()
    &&& forall|j: int| 0 <= j < word.len() ==> s[at + j] == (#[trigger] word[j]) as u8
}

/// The mark, if any, whose encoding starts at index `at`.
pub open spec fn spec_mark_at(s: Seq<u8>, at: int) -> Option<Mark> {
    if spec_found_at(s, at, Mark::Colon.encoding()) {
        Some(Mark::Colon)
    } else if spec_found_at(s, at, Mark::Exclamation.encoding()) {
        Some(Mark::Exclamation)
    } else if spec_found_at(s, at, Mark::Question.encoding()) {
        Some(Mark::Question)
    } else if spec_found_at(s, at, Mark::Interrobang.encoding()) {
        Some(Mark::Interrobang)
    } else if spec_found_at(s, at, Mark::InvertedInterrobang.encoding()) {
        Some(Mark::InvertedInterrobang)
    } else {
        None
    }
}

/// An ASCII letter or digit.
pub open spec fn spec_is_alphanumeric(b: u8) -> bool {
    ||| 'a' as u8 <= b <= 'z' as u8
    ||| 'A' as u8 <= b <= 'Z' as u8
    ||| spec_is_digit(b)
}

/// An ASCII digit.
pub open spec fn spec_is_digit(b: u8) -> bool {
    '0' as u8 <= b <= '9' as u8
}

/// A letter that `test(1)` takes as the flag of a check on one file.
pub open spec fn spec_is_test_flag(b: u8) -> bool {
    ||| 'b' as u8 <= b <= 'h' as u8
    ||| b == 'G' as u8
    ||| b == 'k' as u8
    ||| b == 'L' as u8
    ||| b == 'N' as u8
    ||| b == 'O' as u8
    ||| b == 'p' as u8
    ||| b == 'r' as u8
    ||| b == 's' as u8
    ||| b == 'S' as u8
    ||| b == 't' as u8
    ||| b == 'u' as u8
    ||| b == 'w' as u8
    ||| b == 'x' as u8
}

/// Whether the byte before index `i` exists and is `b`.
pub open spec fn preceded_by(s: Seq<u8>, i: int, b: u8) -> bool {
    0 < i <= s.len() && s[i - 1] == b
}

/// Whether a shell test such as ` -e` stands at index `at`.
pub open spec fn shell_test_at(s: Seq<u8>, at: int) -> bool {
    &&& spec_followed_by(s, at, " -"@)
    &&& at + 2 < s.len()
    &&& spec_is_test_flag(s[at + 2])
}

/// Whether letters and digits, at least one, and then `=` stand at index `at`,
/// as in the parameter of a URL (`?lang=en`).
pub open spec fn query_parameter_at(s: Seq<u8>, at: int) -> bool {
    exists|k: int|
        {
            &&& 1 <= k
            &&& 0 <= at
            &&& at + k < s.len()
            &&& (forall|j: int| at <= j < at + k ==> spec_is_alphanumeric(#[trigger] s[j]))
            &&& #[trigger] s[at + k] == '=' as u8
        }
}

/// Whether a space at index `i` before a colon is left alone: another space or
/// a `>` stands before it, or the colon is not followed by a space (`:fire:`,
/// `:)`).
pub open spec fn colon_excluded(h: Heuristics, s: Seq<u8>, i: int) -> bool {
    ||| preceded_by(s, i, SPACE)
    ||| h == Heuristics::Extended && preceded_by(s, i, '>' as u8)
    ||| i + 2 < s.len() && s[i + 2] != SPACE
}

/// Whether a space at index `i` before an exclamation mark is left alone: the
/// mark negates (`a & !b`, `!=`, `!(`, `!Send`, `[ ! -e file ]`,
/// `!defined(`).
pub open spec fn exclamation_excluded(h: Heuristics, s: Seq<u8>, i: int) -> bool {
    ||| h == Heuristics::Extended && {
        ||| preceded_by(s, i, '&' as u8)
        ||| preceded_by(s, i, '=' as u8)
        ||| preceded_by(s, i, '>' as u8)
        ||| preceded_by(s, i, '|' as u8)
        ||| spec_followed_by(s, i + 2, "("@)
        ||| spec_followed_by(s, i + 2, "defined("@)
    }
    ||| spec_followed_by(s, i + 2, "="@)
    ||| spec_followed_by(s, i + 2, "Send"@)
    ||| spec_followed_by(s, i + 2, "Sync"@)
    ||| shell_test_at(s, i + 2)
}

/// Whether a space at index `i` before a question mark is left alone: the mark
/// opens `?Sized`, the query of a URL or a numbered parameter of SQL (`?1`).
pub open spec fn question_excluded(h: Heuristics, s: Seq<u8>, i: int) -> bool {
    ||| h == Heuristics::Extended && {
        ||| query_parameter_at(s, i + 2)
        ||| i + 2 < s.len() && spec_is_digit(s[i + 2])
    }
    ||| spec_followed_by(s, i + 2, "Sized"@)
}

/// Whether the space at index `i`, which stands before `mark`, is left alone.
pub open spec fn excluded(h: Heuristics, s: Seq<u8>, i: int, mark: Mark) -> bool {
    match mark {
        Mark::Colon => colon_excluded(h, s, i),
        Mark::Exclamation => exclamation_excluded(h, s, i),
        Mark::Question => question_excluded(h, s, i),
        Mark::Interrobang => false,
        Mark::InvertedInterrobang => false,
    }
}

/// Whether a mark follows a space at index `i`, whatever stands around them.
pub open spec fn space_before_mark(s: Seq<u8>, i: int) -> bool {
    &&& 0 <= i < s.len()
    &&& s[i] == SPACE
    &&& spec_mark_at(s, i + 1) is Some
}

/// Whether the byte at index `i` is a space to report.
pub open spec fn typo_at(h: Heuristics, s: Seq<u8>, i: int) -> bool {
    &&& space_before_mark(s, i)
    &&& !excluded(h, s, i, spec_mark_at(s, i + 1)->0)
}

/// What is reported in the first `n` bytes of `s`, from left to right.
pub open spec fn findings_upto(h: Heuristics, s: Seq<u8>, n: int) -> Seq<Finding>
    decreases n,
{
    if n <= 0 {
        Seq::empty()
    } else if typo_at(h, s, n - 1) {
        findings_upto(h, s, n - 1).push(
            Finding { offset: n - 1, mark: spec_mark_at(s, n)->0 },
        )
    } else {
        findings_upto(h, s, n - 1)
    }
}

/// What is reported in `s`: every space to report, from left to right.
pub open spec fn findings(h: Heuristics, s: Seq<u8>) -> Seq<Finding> {
    findings_upto(h, s, s.len() as int)
}

/// What is reported in a prefix of `s` points into that prefix, and at spaces
/// to report.
proof fn lemma_findings_upto_sound(h: Heuristics, s: Seq<u8>, n: int)
    requires
        n <= s.len(),
    ensures
        findings_upto(h, s, n).len() <= if n < 0 { 0 } else { n },
        forall|k: int|
            0 <= k < findings_upto(h, s, n).len() ==> {
                let f = #[trigger] findings_upto(h, s, n)[k];
                &&& 0 <= f.offset < n
                &&& typo_at(h, s, f.offset)
                &&& spec_mark_at(s, f.offset + 1) == Some(f.mark)
            },
        forall|k: int, l: int|
            0 <= k < l < findings_upto(h, s, n).len() ==> (#[trigger] findings_upto(
                h,
                s,
                n,
            )[k]).offset < (#[trigger] findings_upto(h, s, n)[l]).offset,
    decreases n,
{
    if n > 0 {
        lemma_findings_upto_sound(h, s, n - 1);
    }
}

/// Every space to report in a prefix of `s` is reported.
proof fn lemma_findings_upto_complete(h: Heuristics, s: Seq<u8>, n: int, i: int)
    requires
        0 <= i < n <= s.len(),
        typo_at(h, s, i),
    ensures
        exists|k: int|
            0 <= k < findings_upto(h, s, n).len() && (#[trigger] findings_upto(h, s, n)[k]).offset
                == i,
    decreases n,
{
    if i == n - 1 {
        let k = findings_upto(h, s, n - 1).len() as int;
        assert(findings_upto(h, s, n)[k].offset == i);
    } else {
        lemma_findings_upto_complete(h, s, n - 1, i);
        let k = choose|k: int|
            0 <= k < findings_upto(h, s, n - 1).len() && (#[trigger] findings_upto(
                h,
                s,
                n - 1,
            )[k]).offset == i;
        assert(findings_upto(h, s, n)[k].offset == i);
    }
}

/// The reports come from left to right, and no space is reported twice: the
/// offsets grow strictly, and each lies in the text.
pub proof fn lemma_findings_ascending(h: Heuristics, s: Seq<u8>)
    ensures
        findings(h, s).len() <= s.len(),
        forall|k: int|
            0 <= k < findings(h, s).len() ==> 0 <= (#[trigger] findings(h, s)[k]).offset < s.len(),
        forall|k: int, l: int|
            0 <= k < l < findings(h, s).len() ==> (#[trigger] findings(h, s)[k]).offset < (
            #[trigger] findings(h, s)[l]).offset,
{
    lemma_findings_upto_sound(h, s, s.len() as int);
}

/// A space is reported if and only if a mark follows it and no exclusion
/// holds; the report names that mark.
pub proof fn lemma_findings_exact(h: Heuristics, s: Seq<u8>, i: int)
    ensures
        typo_at(h, s, i) <==> exists|k: int|
            0 <= k < findings(h, s).len() && (#[trigger] findings(h, s)[k]).offset == i,
        forall|k: int|
            0 <= k < findings(h, s).len() ==> spec_mark_at(
                s,
                (#[trigger] findings(h, s)[k]).offset + 1,
            ) == Some(findings(h, s)[k].mark),
{
    lemma_findings_upto_sound(h, s, s.len() as int);
    if typo_at(h, s, i) {
        lemma_findings_upto_complete(h, s, s.len() as int, i);
    }
}

/// A text in which no mark follows a space yields no report.
pub proof fn lemma_clean_text_has_no_findings(h: Heuristics, s: Seq<u8>)
    requires
        forall|i: int| 0 <= i < s.len() ==> !space_before_mark(s, i),
    ensures
        findings(h, s) == Seq::<Finding>::empty(),
{
    lemma_findings_upto_sound(h, s, s.len() as int);
    if findings(h, s).len() > 0 {
        let f = findings(h, s)[0];
        assert(typo_at(h, s, f.offset));
    }
    assert(findings(h, s) =~= Seq::<Finding>::empty());
}

/// Each report covers one byte, the reported space itself, and belongs to no
/// source yet.
pub proof fn lemma_reports_have_one_byte(h: Heuristics, s: Seq<u8>, k: int)
    requires
        s.len() <= usize::MAX,
        0 <= k < findings(h, s).len(),
    ensures
        findings(h, s)[k].report().span.length == 1,
        findings(h, s)[k].report().span.offset == findings(h, s)[k].offset,
        findings(h, s)[k].report().source is None,
        s[findings(h, s)[k].offset] == SPACE,
{
    lemma_findings_upto_sound(h, s, s.len() as int);
    let f = findings(h, s)[k];
    assert(typo_at(h, s, f.offset));
}

/// Whether `b` is an ASCII letter or digit.
pub fn is_alphanumeric(b: u8) -> (r: bool)
    ensures
        r == spec_is_alphanumeric(b),
{
    ('a' as u8 <= b && b <= 'z' as u8) || ('A' as u8 <= b && b <= 'Z' as u8) || is_digit(b)
}

/// Whether `b` is an ASCII digit.
pub fn is_digit(b: u8) -> (r: bool)
    ensures
        r == spec_is_digit(b),
{
    '0' as u8 <= b && b <= '9' as u8
}

/// Whether `b` is a letter that `test(1)` takes as the flag of a check on one
/// file.
pub fn is_test_flag(b: u8) -> (r: bool)
    ensures
        r == spec_is_test_flag(b),
{
    ('b' as u8 <= b && b <= 'h' as u8) || b == 'G' as u8 || b == 'k' as u8 || b == 'L' as u8 || b
        == 'N' as u8 || b == 'O' as u8 || b == 'p' as u8 || b == 'r' as u8 || b == 's' as u8 || b
        == 'S' as u8 || b == 't' as u8 || b == 'u' as u8 || b == 'w' as u8 || b == 'x' as u8
}

/// The byte at index `at`, if there is one.
pub fn peek(bytes: &[u8], at: usize) -> (b: Option<u8>)
    ensures
        at < bytes@.len() ==> b == Some(bytes@[at as int]),
        at >= bytes@.len() ==> b is None,
{
    if at < bytes.len() {
        Some(bytes[at])
    } else {
        None
    }
}

/// Whether `pattern` stands in `bytes` from index `at` on.
pub fn found_at(bytes: &[u8], at: usize, pattern: &[u8]) -> (r: bool)
    ensures
        r == spec_found_at(bytes@, at as int, pattern@),
{
    if at > bytes.len() || pattern.len() > bytes.len() - at {
        return false;
    }
    let mut k: usize = 0;
    while k < pattern.len()
        invariant
            at + pattern.len() <= bytes.len(),
            k <= pattern.len(),
            forall|j: int| 0 <= j < k ==> bytes@[at + j] == pattern@[j],
        decreases pattern.len() - k,
    {
        if bytes[at + k] != pattern[k] {
            return false;
        }
        k += 1;
    }
    true
}

/// Whether the ASCII text `word` stands in `bytes` from index `at` on.
pub fn followed_by(bytes: &[u8], at: usize, word: &str) -> (r: bool)
    requires
        word.is_ascii(),
    ensures
        r == spec_followed_by(bytes@, at as int, word@),
{
    let pattern = word.as_bytes();
    proof {
        vstd::string::is_ascii_spec_bytes(word);
        assert(pattern@.len() == word@.len());
        assert(forall|j: int|
            #![trigger pattern@[j]]
            #![trigger word@[j]]
            0 <= j < word@.len() ==> pattern@[j] == word@[j] as u8);
    }
    found_at(bytes, at, pattern)
}

/// The mark, if any, whose encoding starts at index `at`.
pub fn mark_at(bytes: &[u8], at: usize) -> (mark: Option<Mark>)
    ensures
        mark == spec_mark_at(bytes@, at as int),
{
    proof {
        let s = bytes@;
        assert forall|m: Mark| #[trigger] spec_found_at(s, at as int, m.encoding()) implies at
            < s.len() && s[at as int] == m.encoding()[0] by {
            assert(m.encoding().len() >= 1);
            assert(s[at + 0] == m.encoding()[0]);
        }
    }
    match peek(bytes, at) {
        None => None,
        Some(first) => {
            if first == ':' as u8 {
                Some(Mark::Colon)
            } else if first == '!' as u8 {
                Some(Mark::Exclamation)
            } else if first == '?' as u8 {
                Some(Mark::Question)
            } else {
                let interrobang: [u8; 3] = [0xE2u8, 0x80u8, 0xBDu8];
                let inverted: [u8; 3] = [0xE2u8, 0xB8u8, 0x98u8];
                if found_at(bytes, at, interrobang.as_slice()) {
                    Some(Mark::Interrobang)
                } else if found_at(bytes, at, inverted.as_slice()) {
                    Some(Mark::InvertedInterrobang)
                } else {
                    None
                }
            }
        },
    }
}

/// Whether a shell test such as ` -e` stands at index `at`.
pub fn is_shell_test_at(bytes: &[u8], at: usize) -> (r: bool)
    requires
        at <= bytes@.len(),
    ensures
        r == shell_test_at(bytes@, at as int),
{
    proof {
        reveal_strlit(" -");
    }
    if !followed_by(bytes, at, " -") {
        return false;
    }
    let len = bytes.len();
    if at + 2 < len {
        is_test_flag(bytes[at + 2])
    } else {
        false
    }
}

/// Whether letters and digits, at least one, and then `=` stand at index `at`.
pub fn is_query_parameter_at(bytes: &[u8], at: usize) -> (r: bool)
    requires
        at <= bytes@.len(),
    ensures
        r == query_parameter_at(bytes@, at as int),
{
    let mut end: usize = at;
    while end < bytes.len() && is_alphanumeric(bytes[end])
        invariant
            at <= end <= bytes@.len(),
            forall|j: int| at <= j < end ==> spec_is_alphanumeric(#[trigger] bytes@[j]),
        decreases bytes@.len() - end,
    {
        end += 1;
    }
    let r = end > at && end < bytes.len() && bytes[end] == '=' as u8;
    proof {
        let s = bytes@;
        if r {
            let k = end - at;
            assert(s[at + k] == '=' as u8);
        } else {
            assert forall|k: int|
                !({
                    &&& 1 <= k
                    &&& 0 <= at
                    &&& at + k < s.len()
                    &&& (forall|j: int| at <= j < at + k ==> spec_is_alphanumeric(#[trigger] s[j]))
                    &&& #[trigger] s[at + k] == '=' as u8
                }) by {
                if 1 <= k && at + k < s.len() && s[at + k] == '=' as u8 && (forall|j: int|
                    at <= j < at + k ==> spec_is_alphanumeric(#[trigger] s[j])) {
                    // The run of letters and digits ends at `end`, and `=` is neither.
                    if at + k < end {
                        assert(spec_is_alphanumeric(s[at + k]));
                    } else if at + k > end {
                        assert(spec_is_alphanumeric(s[end as int]));
                    }
                }
            }
        }
    }
    r
}

/// Whether the space at index `i`, which stands before `mark`, is left alone.
pub fn is_excluded(h: Heuristics, bytes: &[u8], i: usize, mark: Mark) -> (r: bool)
    requires
        i + 1 < bytes@.len(),
    ensures
        r == excluded(h, bytes@, i as int, mark),
{
    let before: Option<u8> = if i > 0 {
        Some(bytes[i - 1])
    } else {
        None
    };
    let after: Option<u8> = peek(bytes, i + 2);
    let extended = match h {
        Heuristics::Extended => true,
        Heuristics::Basic => false,
    };
    proof {
        reveal_strlit("=");
        reveal_strlit("(");
        reveal_strlit("Send");
        reveal_strlit("Sync");
        reveal_strlit("Sized");
        reveal_strlit("defined(");
    }
    match mark {
        Mark::Colon => {
            before == Some(SPACE) || (extended && before == Some('>' as u8)) || (after.is_some()
                && after != Some(SPACE))
        },
        Mark::Exclamation => {
            (extended && (before == Some('&' as u8)
                || before == Some('=' as u8) || before == Some('>' as u8) || before == Some(
                '|' as u8,
            ) || followed_by(bytes, i + 2, "(") || followed_by(bytes, i + 2, "defined(")))
                || followed_by(bytes, i + 2, "=") || followed_by(bytes, i + 2, "Send")
                || followed_by(bytes, i + 2, "Sync") || is_shell_test_at(bytes, i + 2)
        },
        Mark::Question => {
            (extended && (is_query_parameter_at(
                bytes,
                i + 2,
            ) || match after {
                Some(b) => is_digit(b),
                None => false,
            })) || followed_by(bytes, i + 2, "Sized")
        },
        Mark::Interrobang => false,
        Mark::InvertedInterrobang => false,
    }
}

/// Reports every space of `bytes` that stands before a mark and is not left
/// alone, from left to right.
pub fn scan(h: Heuristics, bytes: &[u8]) -> (typos: Vec<TypoSpaceBeforePunctuationMarks>)
    ensures
        reports(typos@, findings(h, bytes@)),
{
    let mut typos: Vec<TypoSpaceBeforePunctuationMarks> = Vec::new();
    let mut i: usize = 0;
    while i < bytes.len()
        invariant
            i <= bytes@.len(),
            reports(typos@, findings_upto(h, bytes@, i as int)),
        decreases bytes@.len() - i,
    {
        if bytes[i] == SPACE {
            match mark_at(bytes, i + 1) {
                Some(mark) => {
                    if !is_excluded(h, bytes, i, mark) {
                        let typo = TypoSpaceBeforePunctuationMarks::new(
                            SourceSpan::new(i, 1),
                            mark.as_char(),
                        );
                        typos.push(typo);
                    }
                },
                None => {},
            }
        }
        i += 1;
    }
    typos
}

/// A rule that detects typographical mistakes related to punctuation.
///
/// It finds a space before a punctuation mark and reports it as a
/// [`TypoSpaceBeforePunctuationMarks`].
pub struct Punctuation;

impl Rule for Punctuation {
    open spec fn findings(&self, bytes: Seq<u8>) -> Seq<Finding> {
        findings(Heuristics::Extended, bytes)
    }

    fn check(&self, bytes: &[u8]) -> (typos: Vec<TypoSpaceBeforePunctuationMarks>) {
        scan(Heuristics::Extended, bytes)
    }
}

} // verus!
