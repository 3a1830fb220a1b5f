//! Rules that find typos, what they report, and how a report is mended.
use vstd::prelude::*;

use vstd::utf8::encode_utf8;

use crate::lang::{
    is_selection, long_enough, string_views, strings_of_nodes, CustomParser, Language,
    LintableNodeView, LintableString, LintableStringView, Mapping, ParseError, Parsed, Strategy,
};
use crate::order::reversed;
use crate::pattern::{any_match, any_matches, pattern_texts, IgnorePattern};
use crate::{NamedSource, SharedSource};

pub mod punctuation;
pub mod space_before;

use self::punctuation::{
    findings, reports, spec_help, Finding, Heuristics, Punctuation, TypoSpaceBeforePunctuationMarks,
    TypoView,
};

verus! {

/// Type that represents a rule that checks for typos.
pub trait Rule {
    /// What the rule finds in `bytes`.
    spec fn findings(&self, bytes: Seq<u8>) -> Seq<Finding>;

    /// Returns the typos found by applying this rule to an array of bytes.
    fn check(&self, bytes: &[u8]) -> (typos: Vec<TypoSpaceBeforePunctuationMarks>)
        ensures
            reports(typos@, self.findings(bytes@)),
    ;
}

/// The kind of action to perform to fix the lint suggestion.
#[derive(Clone, Copy, PartialEq, Eq, Debug, Structural)]
pub enum Fix {
    /// Unclear how to fix the typo, nothing is done.
    Unknown,
    /// Removes some characters.
    Remove { span: SourceSpan },
}

/// Type that represents a typo found.
pub trait Typo {
    /// Where the typo is located.
    spec fn spec_span(&self) -> SourceSpan;

    /// The source the typo was found in, once it is known.
    spec fn spec_source(&self) -> Option<NamedSource>;

    /// The action that mends the typo.
    spec fn spec_fix(&self) -> Fix;

    /// Span that identify where the typo is located.
    fn span(&self) -> (span: SourceSpan)
        ensures
            span == self.spec_span(),
    ;

    /// Specify within which source the typo has been found.
    ///
    /// The span, so far counted from the start of the checked string, is moved
    /// by `offset`, the place of that string in the source. This is done once.
    fn with_source(&mut self, src: SharedSource, offset: usize)
        requires
            old(self).spec_source() is None,
            old(self).spec_span().offset + offset <= usize::MAX,
        ensures
            final(self).spec_source() == Some(src@),
            final(self).spec_span().offset == old(self).spec_span().offset + offset,
            final(self).spec_span().length == old(self).spec_span().length,
    ;

    /// Returns the action to perform to fix the typo.
    fn fix(&self) -> (fix: Fix)
        ensures
            fix == self.spec_fix(),
    ;
}

/// A region of a source: `length` bytes from byte `offset` on.
#[derive(Clone, Copy, PartialEq, Eq, Debug, Structural)]
pub struct SourceSpan {
    pub offset: usize,
    pub length: usize,
}

impl SourceSpan {
    /// The `length` bytes from byte `offset` on.
    pub fn new(offset: usize, length: usize) -> (span: Self)
        ensures
            span.offset == offset,
            span.length == length,
    {
        SourceSpan { offset, length }
    }

    /// Where the region starts.
    pub fn offset(&self) -> (offset: usize)
        ensures
            offset == self.offset,
    {
        self.offset
    }

    /// How many bytes the region holds.
    pub fn len(&self) -> (length: usize)
        ensures
            length == self.length,
    {
        self.length
    }

    /// Whether the region holds no byte.
    pub fn is_empty(&self) -> (empty: bool)
        ensures
            empty == (self.length == 0),
    {
        self.length == 0
    }
}

impl From<(usize, usize)> for SourceSpan {
    fn from(pair: (usize, usize)) -> (span: Self) {
        SourceSpan { offset: pair.0, length: pair.1 }
    }
}

impl vstd::std_specs::convert::FromSpecImpl<(usize, usize)> for SourceSpan {
    open spec fn obeys_from_spec() -> bool {
        true
    }

    open spec fn from_spec(pair: (usize, usize)) -> Self {
        SourceSpan { offset: pair.0, length: pair.1 }
    }
}

/// Why a fix could not be applied. The buffer is then left as it was.
#[derive(Clone, Copy, PartialEq, Eq, Debug, Structural)]
pub enum FixError {
    /// An offset or a length does not fit the signed numbers of the machine,
    /// or the place to mend lies before the start of the buffer.
    OutOfRange,
    /// The bytes to remove do not all lie in the buffer.
    OutOfBounds,
    /// The typos do not come in the order in which they stand in the file, or
    /// two of them share a byte.
    OutOfOrder,
}

/// `buffer` without the `length` bytes from index `start` on.
pub open spec fn without(buffer: Seq<u8>, start: int, length: int) -> Seq<u8> {
    buffer.subrange(0, start) + buffer.subrange(start + length, buffer.len() as int)
}

impl Fix {
    /// What the fix does to `buffer` when the bytes of `buffer` stand `offset`
    /// places away from where they stood when the typo was found: the buffer
    /// afterwards, and by how much the bytes behind the fix have moved.
    pub open spec fn applied(self, buffer: Seq<u8>, offset: int) -> Result<(Seq<u8>, int), FixError> {
        match self {
            Fix::Unknown => Ok((buffer, 0)),
            Fix::Remove { span } => {
                let start = offset + span.offset;
                if span.offset > isize::MAX || span.length > isize::MAX || start > isize::MAX
                    || start < 0 {
                    Err(FixError::OutOfRange)
                } else if start + span.length > buffer.len() {
                    Err(FixError::OutOfBounds)
                } else {
                    Ok((without(buffer, start, span.length as int), -(span.length as int)))
                }
            },
        }
    }

    /// Applies the action on the given buffer.
    ///
    /// Returns the offset that needs to be given to this function for
    /// the following calls.
    pub fn apply_with_offset(&self, buffer: &mut Vec<u8>, offset: isize) -> (moved: Result<
        isize,
        FixError,
    >)
        ensures
            match self.applied(old(buffer)@, offset as int) {
                Ok((mended, by)) => moved == Ok::<isize, FixError>(by as isize) && final(buffer)@
                    == mended,
                Err(e) => moved == Err::<isize, FixError>(e) && final(buffer)@ == old(buffer)@,
            },
    {
        match self {
            Fix::Unknown => Ok(0),
            Fix::Remove { span } => {
                if span.offset > isize::MAX as usize || span.length > isize::MAX as usize {
                    return Err(FixError::OutOfRange);
                }
                let start = match offset.checked_add(span.offset as isize) {
                    Some(start) => start,
                    None => {
                        return Err(FixError::OutOfRange);
                    },
                };
                if start < 0 {
                    return Err(FixError::OutOfRange);
                }
                let start = start as usize;
                let len = buffer.len();
                if span.length > len || start > len - span.length {
                    return Err(FixError::OutOfBounds);
                }
                let end = start + span.length;
                let mut tail = buffer.split_off(end);
                buffer.truncate(start);
                buffer.append(&mut tail);
                assert(buffer@ =~= without(old(buffer)@, start as int, span.length as int));
                Ok(-(span.length as isize))
            },
        }
    }
}

/// `buffer` after the removals `spans`, made from left to right: each is made
/// where its bytes now stand, which is `moved` places from where they stood at
/// first, and moves what lies behind it by its length.
pub open spec fn removed_ascending(buffer: Seq<u8>, moved: int, spans: Seq<SourceSpan>) -> Seq<u8>
    decreases spans.len(),
{
    if spans.len() == 0 {
        buffer
    } else {
        removed_ascending(
            without(buffer, spans[0].offset + moved, spans[0].length as int),
            moved - spans[0].length,
            spans.drop_first(),
        )
    }
}

/// `buffer` after the removals `spans`, made from right to left: no removal
/// moves the bytes of one that is made after it. Every span stands `moved`
/// places from where it says.
pub open spec fn removed_descending(buffer: Seq<u8>, moved: int, spans: Seq<SourceSpan>) -> Seq<u8>
    decreases spans.len(),
{
    if spans.len() == 0 {
        buffer
    } else {
        without(
            removed_descending(buffer, moved, spans.drop_first()),
            spans[0].offset + moved,
            spans[0].length as int,
        )
    }
}

/// Whether `spans`, taken `moved` places from where they say, come from left
/// to right without sharing a byte, and lie between `from` and `to`.
pub open spec fn in_order(spans: Seq<SourceSpan>, moved: int, from: int, to: int) -> bool {
    &&& forall|k: int|
        0 <= k < spans.len() ==> from <= (#[trigger] spans[k]).offset + moved && spans[k].offset
            + moved + spans[k].length <= to
    &&& forall|k: int, l: int|
        0 <= k < l < spans.len() ==> (#[trigger] spans[k]).offset + spans[k].length <= (
        #[trigger] spans[l]).offset
}

/// What the removals from right to left leave is at least as long as the place
/// where the leftmost of them starts.
proof fn lemma_descending_len(buffer: Seq<u8>, moved: int, spans: Seq<SourceSpan>, from: int)
    requires
        0 <= from <= buffer.len(),
        in_order(spans, moved, from, buffer.len() as int),
    ensures
        removed_descending(buffer, moved, spans).len() >= from,
        removed_descending(buffer, moved, spans).len() <= buffer.len(),
    decreases spans.len(),
{
    if spans.len() > 0 {
        let rest = spans.drop_first();
        let end = spans[0].offset + moved + spans[0].length;
        assert forall|k: int| 0 <= k < rest.len() implies end <= (#[trigger] rest[k]).offset + moved
            && rest[k].offset + moved + rest[k].length <= buffer.len() by {
            assert(rest[k] == spans[k + 1]);
            assert(spans[0].offset + spans[0].length <= spans[k + 1].offset);
        }
        assert forall|k: int, l: int| 0 <= k < l < rest.len() implies (#[trigger] rest[k]).offset
            + rest[k].length <= (#[trigger] rest[l]).offset by {
            assert(spans[k + 1].offset + spans[k + 1].length <= spans[l + 1].offset);
        }
        lemma_descending_len(buffer, moved, rest, end);
    }
}

/// Two removals that share no byte can be made in either order: the one on
/// the right is made `length` places further left when it comes second.
proof fn lemma_without_commutes(buffer: Seq<u8>, left: int, length: int, right: int, size: int)
    requires
        0 <= left,
        0 <= length,
        left + length <= right,
        0 <= size,
        right + size <= buffer.len(),
    ensures
        without(without(buffer, left, length), right - length, size) == without(
            without(buffer, right, size),
            left,
            length,
        ),
{
    assert(without(without(buffer, left, length), right - length, size) =~= without(
        without(buffer, right, size),
        left,
        length,
    ));
}

/// A removal on the left of all the others can be made before them or after
/// them.
proof fn lemma_descending_after(buffer: Seq<u8>, moved: int, spans: Seq<SourceSpan>, left: int, length: int)
    requires
        0 <= left,
        0 <= length,
        left + length <= buffer.len(),
        in_order(spans, moved, left + length, buffer.len() as int),
    ensures
        removed_descending(without(buffer, left, length), moved - length, spans) == without(
            removed_descending(buffer, moved, spans),
            left,
            length,
        ),
    decreases spans.len(),
{
    if spans.len() > 0 {
        let rest = spans.drop_first();
        let right = spans[0].offset + moved;
        let size = spans[0].length as int;
        assert forall|k: int| 0 <= k < rest.len() implies right + size <= (#[trigger] rest[k]).offset
            + moved && rest[k].offset + moved + rest[k].length <= buffer.len() by {
            assert(rest[k] == spans[k + 1]);
            assert(spans[0].offset + spans[0].length <= spans[k + 1].offset);
        }
        assert forall|k: int, l: int| 0 <= k < l < rest.len() implies (#[trigger] rest[k]).offset
            + rest[k].length <= (#[trigger] rest[l]).offset by {
            assert(spans[k + 1].offset + spans[k + 1].length <= spans[l + 1].offset);
        }
        lemma_descending_after(buffer, moved, rest, left, length);
        lemma_descending_len(buffer, moved, rest, right + size);
        lemma_without_commutes(removed_descending(buffer, moved, rest), left, length, right, size);
    }
}

/// Removals that share no byte leave the same bytes whether they are made
/// from left to right, each where its bytes have moved to, or from right to
/// left, each where its bytes stood from the start.
pub proof fn lemma_fixes_in_either_order(buffer: Seq<u8>, moved: int, spans: Seq<SourceSpan>)
    requires
        in_order(spans, moved, 0, buffer.len() as int),
    ensures
        removed_ascending(buffer, moved, spans) == removed_descending(buffer, moved, spans),
    decreases spans.len(),
{
    if spans.len() > 0 {
        let rest = spans.drop_first();
        let left = spans[0].offset + moved;
        let length = spans[0].length as int;
        let shorter = without(buffer, left, length);
        assert forall|k: int| 0 <= k < rest.len() implies left + length <= (#[trigger] rest[k]).offset
            + moved && rest[k].offset + moved + rest[k].length <= buffer.len() by {
            assert(rest[k] == spans[k + 1]);
            assert(spans[0].offset + spans[0].length <= spans[k + 1].offset);
        }
        assert forall|k: int, l: int| 0 <= k < l < rest.len() implies (#[trigger] rest[k]).offset
            + rest[k].length <= (#[trigger] rest[l]).offset by {
            assert(spans[k + 1].offset + spans[k + 1].length <= spans[l + 1].offset);
        }
        assert(in_order(rest, moved - length, 0, shorter.len() as int));
        lemma_fixes_in_either_order(shorter, moved - length, rest);
        lemma_descending_after(buffer, moved, rest, left, length);
    }
}

/// What `fixes` do to `buffer` when they are applied one after the other, each
/// with the offset that the ones before it have left: the buffer afterwards,
/// and by how much the bytes behind the last fix have moved. The first fix that
/// cannot be applied ends it.
pub open spec fn applied_all(buffer: Seq<u8>, moved: int, fixes: Seq<Fix>) -> Result<(Seq<u8>, int), FixError>
    decreases fixes.len(),
{
    if fixes.len() == 0 {
        Ok((buffer, moved))
    } else {
        match fixes[0].applied(buffer, moved) {
            Ok((mended, by)) => applied_all(mended, moved + by, fixes.drop_first()),
            Err(e) => Err(e),
        }
    }
}

/// The removals of `spans`.
pub open spec fn removals(spans: Seq<SourceSpan>) -> Seq<Fix> {
    spans.map_values(|span: SourceSpan| Fix::Remove { span })
}

/// How many bytes `spans` hold together.
pub open spec fn removed_len(spans: Seq<SourceSpan>) -> int
    decreases spans.len(),
{
    if spans.len() == 0 {
        0
    } else {
        spans[0].length + removed_len(spans.drop_first())
    }
}

/// The fixes of typos that share no byte, applied in the order in which the
/// typos stand in the file, remove every flagged byte and no other: what is
/// left is what the removals leave when they are made from the end of the file
/// backwards, where none of them moves the bytes of another.
pub proof fn lemma_fixes_remove_what_is_flagged(buffer: Seq<u8>, moved: int, spans: Seq<SourceSpan>)
    requires
        buffer.len() <= isize::MAX,
        in_order(spans, moved, 0, buffer.len() as int),
        forall|k: int| 0 <= k < spans.len() ==> (#[trigger] spans[k]).offset <= isize::MAX,
    ensures
        applied_all(buffer, moved, removals(spans)) == Ok::<(Seq<u8>, int), FixError>(
            (removed_descending(buffer, moved, spans), moved - removed_len(spans)),
        ),
    decreases spans.len(),
{
    lemma_fixes_in_either_order(buffer, moved, spans);
    if spans.len() > 0 {
        let rest = spans.drop_first();
        let left = spans[0].offset + moved;
        let length = spans[0].length as int;
        let shorter = without(buffer, left, length);
        assert(removals(spans)[0] == Fix::Remove { span: spans[0] });
        assert(removals(spans).drop_first() =~= removals(rest));
        assert forall|k: int| 0 <= k < rest.len() implies left + length <= (#[trigger] rest[k]).offset
            + moved && rest[k].offset + moved + rest[k].length <= buffer.len() by {
            assert(rest[k] == spans[k + 1]);
            assert(spans[0].offset + spans[0].length <= spans[k + 1].offset);
        }
        assert forall|k: int, l: int| 0 <= k < l < rest.len() implies (#[trigger] rest[k]).offset
            + rest[k].length <= (#[trigger] rest[l]).offset by {
            assert(spans[k + 1].offset + spans[k + 1].length <= spans[l + 1].offset);
        }
        assert forall|k: int| 0 <= k < rest.len() implies (#[trigger] rest[k]).offset
            <= isize::MAX by {
            assert(rest[k] == spans[k + 1]);
        }
        assert(in_order(rest, moved - length, 0, shorter.len() as int));
        lemma_fixes_remove_what_is_flagged(shorter, moved - length, rest);
        lemma_fixes_in_either_order(shorter, moved - length, rest);
    }
}

/// The fix of each of `typos`.
pub open spec fn fixes_of<T: Typo>(typos: Seq<T>) -> Seq<Fix> {
    typos.map_values(|typo: T| typo.spec_fix())
}

/// The spans of those of `fixes` that remove something.
pub open spec fn removal_spans(fixes: Seq<Fix>) -> Seq<SourceSpan>
    decreases fixes.len(),
{
    if fixes.len() == 0 {
        Seq::empty()
    } else {
        let first = removal_spans(fixes.drop_last());
        match fixes.last() {
            Fix::Remove { span } => first.push(span),
            Fix::Unknown => first,
        }
    }
}

/// Whether `spans` come in the order in which they stand in a buffer of `len`
/// bytes, share no byte and lie in the buffer.
fn are_in_order(spans: &Vec<SourceSpan>, len: usize) -> (ordered: bool)
    ensures
        ordered == in_order(spans@, 0, 0, len as int),
{
    let mut end: usize = 0;
    let mut i: usize = 0;
    while i < spans.len()
        invariant
            i <= spans.len(),
            in_order(spans@.take(i as int), 0, 0, len as int),
            i == 0 ==> end == 0,
            i > 0 ==> end == spans[i - 1].offset + spans[i - 1].length,
            end <= len,
        decreases spans.len() - i,
    {
        let span = spans[i];
        if span.offset < end {
            assert(!in_order(spans@, 0, 0, len as int)) by {
                if in_order(spans@, 0, 0, len as int) {
                    assert(spans@[i - 1].offset + spans@[i - 1].length <= spans@[i as int].offset);
                }
            }
            return false;
        }
        if span.offset > len || span.length > len - span.offset {
            assert(!in_order(spans@, 0, 0, len as int)) by {
                if in_order(spans@, 0, 0, len as int) {
                    assert(spans@[i as int].offset + spans@[i as int].length <= len);
                }
            }
            return false;
        }
        proof {
            let seen = spans@.take(i as int);
            let now = spans@.take(i + 1);
            assert forall|k: int, l: int| 0 <= k < l < now.len() implies (#[trigger] now[k]).offset
                + now[k].length <= (#[trigger] now[l]).offset by {
                if l < i {
                    assert(seen[k].offset + seen[k].length <= seen[l].offset);
                } else if k < i - 1 {
                    assert(seen[k].offset + seen[k].length <= seen[i - 1].offset);
                }
            }
        }
        end = span.offset + span.length;
        i += 1;
    }
    assert(spans@.take(spans.len() as int) =~= spans@);
    true
}

/// Applies the fixes of `typos` to `buffer` and returns the content that is
/// mended: every byte that a typo flags is removed, and no other byte.
///
/// The typos must come in the order in which they stand in the file, and no
/// two of them may flag the same byte: others are refused.
pub fn apply_fixes<T: Typo>(buffer: Vec<u8>, typos: &Vec<T>) -> (mended: Result<Vec<u8>, FixError>)
    requires
        buffer@.len() <= isize::MAX,
    ensures
        in_order(removal_spans(fixes_of(typos@)), 0, 0, buffer@.len() as int) ==> {
            &&& mended matches Ok(m)
            &&& m@ == removed_descending(buffer@, 0, removal_spans(fixes_of(typos@)))
        },
        !in_order(removal_spans(fixes_of(typos@)), 0, 0, buffer@.len() as int) ==> mended == Err::<
            Vec<u8>,
            FixError,
        >(FixError::OutOfOrder),
{
    let mut spans: Vec<SourceSpan> = Vec::new();
    let mut i: usize = 0;
    assert(fixes_of(typos@.take(0)) =~= Seq::<Fix>::empty());
    while i < typos.len()
        invariant
            i <= typos.len(),
            spans@ == removal_spans(fixes_of(typos@.take(i as int))),
        decreases typos.len() - i,
    {
        let fix = typos[i].fix();
        proof {
            let now = fixes_of(typos@.take(i + 1));
            assert(now.drop_last() =~= fixes_of(typos@.take(i as int)));
            assert(now.last() == fix);
        }
        match fix {
            Fix::Remove { span } => {
                spans.push(span);
            },
            Fix::Unknown => {},
        }
        i += 1;
    }
    assert(typos@.take(typos.len() as int) =~= typos@);
    if !are_in_order(&spans, buffer.len()) {
        return Err(FixError::OutOfOrder);
    }
    proof {
        assert forall|k: int| 0 <= k < spans@.len() implies (#[trigger] spans@[k]).offset
            <= isize::MAX by {
            assert(spans@[k].offset + spans@[k].length <= buffer@.len());
        }
        lemma_fixes_remove_what_is_flagged(buffer@, 0, spans@);
    }
    let ghost fixes = removals(spans@);
    let mut fixer = TypoFixer::new(buffer);
    let mut i: usize = 0;
    assert(fixes.skip(0) =~= fixes);
    while i < spans.len()
        invariant
            i <= spans.len(),
            fixer.wf(),
            fixes == removals(spans@),
            applied_all(buffer@, 0, fixes) is Ok,
            applied_all(buffer@, 0, fixes) == applied_all(
                fixer.content(),
                fixer.moved(),
                fixes.skip(i as int),
            ),
        decreases spans.len() - i,
    {
        let ghost rest = fixes.skip(i as int);
        assert(rest[0] == Fix::Remove { span: spans@[i as int] });
        assert(rest.drop_first() =~= fixes.skip(i + 1));
        match fixer.apply(Fix::Remove { span: spans[i] }) {
            Ok(_) => {},
            Err(e) => {
                return Err(e);
            },
        }
        i += 1;
    }
    Ok(fixer.into_bytes())
}

/// Mends the typos of one file in a copy of its content.
///
/// The typos are taken in the order in which they stand in the file: after
/// each removal the fixer remembers by how much the rest has moved.
pub struct TypoFixer {
    buffer: Vec<u8>,
    offset: isize,
    initial: Ghost<nat>,
}

impl TypoFixer {
    /// The content so far.
    pub closed spec fn content(&self) -> Seq<u8> {
        self.buffer@
    }

    /// By how much the bytes behind the last fix have moved.
    pub closed spec fn moved(&self) -> int {
        self.offset as int
    }

    /// How many bytes the content held before anything was mended.
    pub closed spec fn initial_len(&self) -> nat {
        self.initial@
    }

    /// The fixer has moved the bytes by as much as the content has shrunk,
    /// and the content was no longer at first than the greatest signed number
    /// of the machine.
    pub open spec fn wf(&self) -> bool {
        &&& self.initial_len() <= isize::MAX
        &&& self.content().len() <= self.initial_len()
        &&& self.moved() == self.content().len() - self.initial_len()
    }

    /// A fix whose bytes lie in the content, where they now stand, succeeds:
    /// it cuts exactly these bytes out, and moves what lies behind them by
    /// their number.
    pub proof fn lemma_fix_succeeds(&self, span: SourceSpan)
        requires
            self.wf(),
            0 <= span.offset + self.moved(),
            span.offset + self.moved() + span.length <= self.content().len(),
        ensures
            (Fix::Remove { span }).applied(self.content(), self.moved()) == Ok::<
                (Seq<u8>, int),
                FixError,
            >(
                (
                    without(self.content(), span.offset + self.moved(), span.length as int),
                    -(span.length as int),
                ),
            ),
    {
    }

    /// A fixer for the content `buffer`, of which nothing has been mended yet.
    pub fn new(buffer: Vec<u8>) -> (fixer: Self)
        requires
            buffer@.len() <= isize::MAX,
        ensures
            fixer.wf(),
            fixer.content() == buffer@,
            fixer.moved() == 0,
    {
        let ghost initial = buffer@.len();
        TypoFixer { buffer, offset: 0, initial: Ghost(initial) }
    }

    /// Applies the fix of `typo` to the content, at the place where the typo
    /// now stands. Where that cannot be done, the content stays as it is.
    pub fn fix<T: Typo>(&mut self, typo: &T) -> (done: Result<(), FixError>)
        requires
            old(self).wf(),
        ensures
            final(self).wf(),
            match typo.spec_fix().applied(old(self).content(), old(self).moved()) {
                Ok((mended, by)) => {
                    &&& done == Ok::<(), FixError>(())
                    &&& final(self).content() == mended
                    &&& final(self).moved() == old(self).moved() + by
                },
                Err(e) => {
                    &&& done == Err::<(), FixError>(e)
                    &&& final(self).content() == old(self).content()
                    &&& final(self).moved() == old(self).moved()
                },
            },
    {
        self.apply(typo.fix())
    }

    /// Applies `fix` to the content, where the bytes it speaks of now stand.
    /// Where that cannot be done, the content stays as it is.
    pub fn apply(&mut self, fix: Fix) -> (done: Result<(), FixError>)
        requires
            old(self).wf(),
        ensures
            final(self).wf(),
            match fix.applied(old(self).content(), old(self).moved()) {
                Ok((mended, by)) => {
                    &&& done == Ok::<(), FixError>(())
                    &&& final(self).content() == mended
                    &&& final(self).moved() == old(self).moved() + by
                },
                Err(e) => {
                    &&& done == Err::<(), FixError>(e)
                    &&& final(self).content() == old(self).content()
                    &&& final(self).moved() == old(self).moved()
                },
            },
    {
        match fix.apply_with_offset(&mut self.buffer, self.offset) {
            Ok(by) => {
                self.offset = self.offset + by;
                Ok(())
            },
            Err(e) => Err(e),
        }
    }

    /// The content as it stands.
    pub fn buffer(&self) -> (buffer: &[u8])
        ensures
            buffer@ == self.content(),
    {
        self.buffer.as_slice()
    }

    /// The content as it stands, for good.
    pub fn into_bytes(self) -> (buffer: Vec<u8>)
        ensures
            buffer@ == self.content(),
    {
        self.buffer
    }
}

/// The typo that reports the finding `f` of the string `string` of the source
/// `source`: it stands as far into the source as the finding stands into the
/// string, from where the string starts.
pub open spec fn rebased(f: Finding, string: LintableStringView, source: NamedSource) -> TypoView {
    TypoView {
        source: Some(source),
        span: SourceSpan { offset: (string.offset + f.offset) as usize, length: 1 },
        help: spec_help(f.mark.symbol()),
    }
}

/// The typos of `string`, each in its place in `source`, from left to right.
pub open spec fn typos_in(string: LintableStringView, source: NamedSource) -> Seq<TypoView> {
    findings(Heuristics::Extended, encode_utf8(string.value)).map_values(
        |f: Finding| rebased(f, string, source),
    )
}

/// The typos of the strings from place `from` on, in the order in which they
/// are given out: string after string, and the typos of a string from right to
/// left.
pub open spec fn typos_from(strings: Seq<LintableStringView>, from: int, source: NamedSource) -> Seq<
    TypoView,
>
    decreases strings.len() - from,
{
    if from < 0 || from >= strings.len() {
        Seq::empty()
    } else {
        typos_in(strings[from], source).reverse() + typos_from(strings, from + 1, source)
    }
}

/// Where the bytes of a string are UTF-8, a typo of the string stands on a
/// space of the source: the string holds the text of its range, so that a byte
/// of the text is the byte of the source as far behind the start of the range.
pub proof fn lemma_typo_stands_on_a_space(bytes: Seq<u8>, start: int, end: int, k: int)
    requires
        0 <= start <= end <= bytes.len(),
        vstd::utf8::valid_utf8(bytes.subrange(start, end)),
        0 <= k < findings(
            Heuristics::Extended,
            encode_utf8(vstd::utf8::decode_utf8(bytes.subrange(start, end))),
        ).len(),
    ensures
        ({
            let text = vstd::utf8::decode_utf8(bytes.subrange(start, end));
            let f = findings(Heuristics::Extended, encode_utf8(text))[k];
            &&& start <= start + f.offset < end
            &&& bytes[start + f.offset] == punctuation::SPACE
            &&& punctuation::spec_mark_at(bytes.subrange(start, end), f.offset + 1) == Some(f.mark)
        }),
{
    let piece = bytes.subrange(start, end);
    vstd::utf8::decode_utf8_encode_utf8(piece);
    punctuation::lemma_findings_ascending(Heuristics::Extended, piece);
    punctuation::lemma_findings_exact(Heuristics::Extended, piece, 0);
    let f = findings(Heuristics::Extended, piece)[k];
    punctuation::lemma_findings_exact(Heuristics::Extended, piece, f.offset);
    assert(punctuation::typo_at(Heuristics::Extended, piece, f.offset));
    assert(piece[f.offset] == bytes[start + f.offset]);
}

/// What each of `typos` holds.
pub open spec fn typo_views(typos: Seq<TypoSpaceBeforePunctuationMarks>) -> Seq<TypoView> {
    typos.map_values(|t: TypoSpaceBeforePunctuationMarks| t@)
}

/// Whether the end of `string` is an offset that the machine can hold.
pub open spec fn fits(string: LintableStringView) -> bool {
    string.offset + encode_utf8(string.value).len() <= usize::MAX
}

/// Those of the first `n` of `strings` that are checked: the ones that are
/// not ignored, and whose end is an offset that the machine can hold.
pub open spec fn checked(strings: Seq<LintableStringView>, ignored: Seq<bool>, n: int) -> Seq<
    LintableStringView,
>
    decreases n,
{
    if n <= 0 {
        Seq::empty()
    } else {
        let first = checked(strings, ignored, n - 1);
        if !ignored[n - 1] && fits(strings[n - 1]) {
            first.push(strings[n - 1])
        } else {
            first
        }
    }
}

/// A string that is ignored is not checked: every string that is checked is
/// one of the strings that are not ignored.
pub proof fn lemma_ignored_strings_are_left_out(
    strings: Seq<LintableStringView>,
    ignored: Seq<bool>,
    n: int,
    j: int,
)
    requires
        0 <= n <= strings.len(),
        0 <= j < checked(strings, ignored, n).len(),
    ensures
        exists|k: int|
            0 <= k < n && !ignored[k] && fits(strings[k]) && #[trigger] strings[k] == checked(
                strings,
                ignored,
                n,
            )[j],
    decreases n,
{
    if n > 0 {
        let first = checked(strings, ignored, n - 1);
        if j < first.len() {
            lemma_ignored_strings_are_left_out(strings, ignored, n - 1, j);
            let k = choose|k: int|
                0 <= k < n - 1 && !ignored[k] && fits(strings[k]) && #[trigger] strings[k]
                    == first[j];
            assert(strings[k] == checked(strings, ignored, n)[j]);
        } else {
            assert(strings[n - 1] == checked(strings, ignored, n)[j]);
        }
    }
}

/// Where every string is ignored, none is checked, and no typo is found.
pub proof fn lemma_all_ignored(strings: Seq<LintableStringView>, ignored: Seq<bool>, n: int, source: NamedSource)
    requires
        0 <= n <= strings.len(),
        forall|k: int| 0 <= k < n ==> #[trigger] ignored[k],
    ensures
        checked(strings, ignored, n).len() == 0,
        typos_listed(checked(strings, ignored, n), 0, source).len() == 0,
        typos_from(checked(strings, ignored, n), 0, source).len() == 0,
    decreases n,
{
    if n > 0 {
        lemma_all_ignored(strings, ignored, n - 1, source);
        assert(ignored[n - 1]);
    }
}

/// For each of `strings`, whether one of `patterns` matches it. Without
/// patterns none is matched.
pub fn ignored_strings(patterns: &Vec<IgnorePattern>, strings: &Vec<LintableString>) -> (ignored: Vec<bool>)
    ensures
        ignored.len() == strings.len(),
        forall|k: int|
            0 <= k < strings.len() ==> #[trigger] ignored[k] == any_matches(
                patterns@,
                strings[k]@.value,
            ),
        patterns.len() == 0 ==> !ignored@.contains(true),
{
    let mut ignored: Vec<bool> = Vec::new();
    let mut i: usize = 0;
    while i < strings.len()
        invariant
            i <= strings.len(),
            ignored.len() == i,
            forall|k: int|
                0 <= k < i ==> #[trigger] ignored[k] == any_matches(patterns@, strings[k]@.value),
            patterns.len() == 0 ==> forall|k: int| 0 <= k < i ==> !ignored[k],
        decreases strings.len() - i,
    {
        ignored.push(any_match(patterns, strings[i].as_str()));
        i += 1;
    }
    ignored
}

/// Those of `strings` that are checked: the ones that are not ignored, and
/// whose end is an offset that the machine can hold.
pub fn checked_strings(strings: Vec<LintableString>, ignored: &Vec<bool>) -> (kept: Vec<LintableString>)
    requires
        ignored.len() == strings.len(),
    ensures
        string_views(kept@) == checked(string_views(strings@), ignored@, strings@.len() as int),
        forall|k: int| 0 <= k < kept.len() ==> fits((#[trigger] kept[k])@),
{
    let ghost all = string_views(strings@);
    let ghost n = all.len() as int;
    let mut rest = reversed(strings);
    let mut kept: Vec<LintableString> = Vec::new();
    assert(string_views(kept@) =~= checked(all, ignored@, 0));
    while rest.len() > 0
        invariant
            n == all.len(),
            n == ignored.len(),
            rest.len() <= n,
            forall|k: int| 0 <= k < rest.len() ==> (#[trigger] rest[k])@ == all[n - 1 - k],
            forall|k: int| 0 <= k < kept.len() ==> fits((#[trigger] kept[k])@),
            string_views(kept@) == checked(all, ignored@, n - rest.len()),
        decreases rest.len(),
    {
        let ghost held = kept@;
        let ghost done = n - rest.len();
        let at = ignored.len() - rest.len();
        let string = rest.pop().unwrap();
        assert(all[done] == string@);
        let bytes = string.as_str().as_bytes().len();
        if !ignored[at] && bytes <= usize::MAX - string.offset() {
            kept.push(string);
            assert(string_views(kept@) =~= string_views(held).push(all[done]));
        }
    }
    kept
}

/// The text of each of `strings`.
pub open spec fn values_of(strings: Seq<LintableStringView>) -> Seq<Seq<char>> {
    strings.map_values(|s: LintableStringView| s.value)
}

/// The typos of `string`, each in its place in `source`, from left to right.
pub fn check_string(string: &LintableString, source: &SharedSource) -> (typos: Vec<
    TypoSpaceBeforePunctuationMarks,
>)
    requires
        fits(string@),
    ensures
        typo_views(typos@) == typos_in(string@, source@),
{
    let offset = string.offset();
    let ghost view = string@;
    let found = Punctuation.check(string.as_str().as_bytes());
    let ghost listed = findings(Heuristics::Extended, encode_utf8(view.value));
    proof {
        punctuation::lemma_findings_ascending(Heuristics::Extended, encode_utf8(view.value));
    }
    let ghost all = typos_in(view, source@);
    let ghost n = listed.len() as int;
    let mut rest = reversed(found);
    let mut typos: Vec<TypoSpaceBeforePunctuationMarks> = Vec::new();
    while rest.len() > 0
        invariant
            n == listed.len(),
            rest.len() <= n,
            all == typos_in(view, source@),
            listed == findings(Heuristics::Extended, encode_utf8(view.value)),
            forall|k: int|
                0 <= k < rest.len() ==> (#[trigger] rest[k])@ == listed[n - 1 - k].report(),
            forall|k: int|
                0 <= k < n ==> 0 <= (#[trigger] listed[k]).offset < encode_utf8(view.value).len(),
            fits(view),
            offset == view.offset,
            typo_views(typos@) == all.take(n - rest.len()),
        decreases rest.len(),
    {
        let ghost held = typos@;
        let ghost done = n - rest.len();
        let mut typo = rest.pop().unwrap();
        assert(typo@ == listed[done].report());
        typo.with_source(source.share(), offset);
        assert(typo@ == rebased(listed[done], view, source@));
        typos.push(typo);
        proof {
            assert(all[done] == rebased(listed[done], view, source@));
            assert(typo_views(typos@) =~= typo_views(held).push(all[done]));
            assert(typo_views(typos@) =~= all.take(done + 1));
        }
    }
    assert(all.take(n) =~= all);
    typos
}

/// The typos of the first `n` of `strings`, in the order in which they stand
/// in the source: string after string, and the typos of a string from left to
/// right.
pub open spec fn typos_listed(strings: Seq<LintableStringView>, n: int, source: NamedSource) -> Seq<
    TypoView,
>
    decreases n,
{
    if n <= 0 {
        Seq::empty()
    } else {
        typos_listed(strings, n - 1, source) + typos_in(strings[n - 1], source)
    }
}

/// Detects typos in a file
pub struct Linter {
    parsed: Parsed,
    source: SharedSource,
    ignore_re: Vec<IgnorePattern>,
}

impl Linter {
    /// The source that is checked.
    pub closed spec fn source(&self) -> NamedSource {
        self.source@
    }

    /// How the strings of the source are found.
    pub closed spec fn strategy(&self) -> Strategy {
        self.parsed.strategy()
    }

    /// The regexes that keep a string from being checked.
    pub closed spec fn ignore_re(&self) -> Seq<Seq<char>> {
        pattern_texts(self.ignore_re@)
    }

    /// Whether one of the regexes matches `text`, which is then not checked.
    pub closed spec fn ignores(&self, text: Seq<char>) -> bool {
        any_matches(self.ignore_re@, text)
    }

    /// The strings of the source: those of the nodes that the language
    /// selects, node after node, or the descriptions of a manifest.
    pub closed spec fn extracted(&self) -> Seq<LintableStringView> {
        self.parsed.extracted(self.source@.bytes@)
    }

    /// For each string of the source, whether one of the regexes matches it.
    pub open spec fn ignored(&self) -> Seq<bool> {
        Seq::new(self.extracted().len(), |k: int| self.ignores(self.extracted()[k].value))
    }

    /// The strings of the source that are checked: those that no regex
    /// matches, and whose end is an offset that the machine can hold.
    pub open spec fn to_check(&self) -> Seq<LintableStringView> {
        checked(self.extracted(), self.ignored(), self.extracted().len() as int)
    }

    /// Builds a linter that checks for typos in the content of the file
    /// called `filename`. There is none for a file whose name no language
    /// takes, and a content that cannot be parsed as the language of the file
    /// is refused.
    pub fn from_path(mapping: &Mapping, filename: &str, source_content: Vec<u8>, source_name: &str) -> (linter:
        Result<Option<Self>, ParseError>)
        requires
            mapping.wf(),
        ensures
            match mapping.resolve(filename@) {
                None => linter == Ok::<Option<Self>, ParseError>(None),
                Some(language) => match language.outcome(source_content@) {
                    Ok(_) => linter matches Ok(Some(_)),
                    Err(e) => linter matches Err(refused) && refused == e,
                },
            },
            linter matches Ok(Some(l)) ==> {
                &&& mapping.resolve(filename@) matches Some(language)
                &&& l.strategy() == language@.strategy
                &&& l.source().name@ == source_name@
                &&& l.source().bytes@ == source_content@
                &&& l.ignore_re() == Seq::<Seq<char>>::empty()
                &&& forall|text: Seq<char>| !#[trigger] l.ignores(text)
            },
    {
        match Language::from_filename(mapping, filename) {
            Some(language) => match Self::new(language, source_content, source_name) {
                Ok(linter) => Ok(Some(linter)),
                Err(e) => Err(e),
            },
            None => Ok(None),
        }
    }

    /// Builds a linter that checks for typos in `source_content`, read as the
    /// language `lang`. A content that cannot be parsed as `lang` is refused.
    pub fn new(lang: &Language, source_content: Vec<u8>, source_name: &str) -> (linter: Result<
        Self,
        ParseError,
    >)
        ensures
            match lang.outcome(source_content@) {
                Ok(_) => linter is Ok,
                Err(e) => linter matches Err(refused) && refused == e,
            },
            linter matches Ok(l) ==> {
                &&& l.strategy() == lang@.strategy
                &&& l.source().name@ == source_name@
                &&& l.source().bytes@ == source_content@
                &&& l.ignore_re() == Seq::<Seq<char>>::empty()
                &&& forall|text: Seq<char>| !#[trigger] l.ignores(text)
            },
    {
        let source = SharedSource::new(source_name, source_content);
        match lang.parse(&source) {
            Ok(parsed) => {
                let linter = Linter { parsed, source, ignore_re: Vec::new() };
                assert(linter.ignore_re() =~= Seq::<Seq<char>>::empty());
                Ok(linter)
            },
            Err(e) => Err(e),
        }
    }

    /// Extends the list of regexes that prevents some strings from being checked
    pub fn extend_ignore_re(&mut self, ignore_re: &[IgnorePattern])
        ensures
            final(self).ignore_re() == old(self).ignore_re() + pattern_texts(ignore_re@),
            forall|text: Seq<char>|
                #[trigger] final(self).ignores(text) == (old(self).ignores(text) || any_matches(
                    ignore_re@,
                    text,
                )),
            final(self).source() == old(self).source(),
            final(self).strategy() == old(self).strategy(),
            final(self).extracted() == old(self).extracted(),
    {
        let mut i: usize = 0;
        assert(pattern_texts(ignore_re@.take(0)) =~= Seq::<Seq<char>>::empty());
        while i < ignore_re.len()
            invariant
                i <= ignore_re.len(),
                self.ignore_re() == old(self).ignore_re() + pattern_texts(ignore_re@.take(i as int)),
                self.ignore_re@.len() == old(self).ignore_re@.len() + i,
                forall|k: int|
                    0 <= k < old(self).ignore_re@.len() ==> (#[trigger] self.ignore_re@[k]).matched()
                        == old(self).ignore_re@[k].matched(),
                forall|k: int|
                    0 <= k < i ==> (#[trigger] self.ignore_re@[old(self).ignore_re@.len()
                        + k]).matched() == ignore_re@[k].matched(),
                self.source == old(self).source,
                self.parsed == old(self).parsed,
            decreases ignore_re.len() - i,
        {
            let copy = ignore_re[i].clone();
            let ghost before = self.ignore_re@;
            self.ignore_re.push(copy);
            proof {
                assert forall|k: int| 0 <= k < before.len() implies (#[trigger] self.ignore_re@[k])
                    == before[k] by {}
                assert(pattern_texts(self.ignore_re@) =~= pattern_texts(before).push(
                    ignore_re@[i as int]@,
                ));
                assert(pattern_texts(ignore_re@.take(i + 1)) =~= pattern_texts(
                    ignore_re@.take(i as int),
                ).push(ignore_re@[i as int]@));
            }
            i += 1;
        }
        assert(ignore_re@.take(ignore_re.len() as int) =~= ignore_re@);
        proof {
            let before = old(self).ignore_re@;
            let after = self.ignore_re@;
            let added = ignore_re@;
            assert forall|text: Seq<char>|
                #[trigger] self.ignores(text) == (old(self).ignores(text) || any_matches(
                    added,
                    text,
                )) by {
                if any_matches(after, text) {
                    let k = choose|k: int|
                        0 <= k < after.len() && (#[trigger] after[k]).matches(text);
                    if k < before.len() {
                        assert(before[k].matches(text));
                    } else {
                        assert(after[before.len() + (k - before.len())].matched() == added[k
                            - before.len()].matched());
                        assert(added[k - before.len()].matches(text));
                    }
                }
                if any_matches(before, text) {
                    let k = choose|k: int|
                        0 <= k < before.len() && (#[trigger] before[k]).matches(text);
                    assert(after[k].matches(text));
                }
                if any_matches(added, text) {
                    let k = choose|k: int| 0 <= k < added.len() && (#[trigger] added[k]).matches(text);
                    assert(after[before.len() + k].matches(text));
                }
            }
        }
    }

    /// Returns the typos found in the source, one at each call of
    /// [`Iter::next`].
    ///
    /// The strings of the source are checked but for those that one of the
    /// regexes matches. Without regexes every string is.
    pub fn iter(&self) -> (iter: Iter)
        ensures
            iter.wf(),
            iter.source() == self.source(),
            iter.position() == 0,
            iter.found().len() == 0,
            iter.strings() == self.to_check(),
            self.is_extraction(self.extracted()),
    {
        let found = self.extraction();
        let ghost all = string_views(found@);
        let ignored = ignored_strings(&self.ignore_re, &found);
        assert(ignored@ =~= self.ignored());
        let kept = checked_strings(found, &ignored);
        Iter { strings: kept, position: 0, source: self.source.share(), typos: Vec::new() }
    }

    /// Returns the typos found in the source, in the order in which they
    /// stand in it.
    ///
    /// The strings of the source are checked but for those that one of the
    /// regexes matches. Without regexes every string is.
    pub fn typos(&self) -> (typos: Vec<TypoSpaceBeforePunctuationMarks>)
        ensures
            typo_views(typos@) == typos_listed(
                self.to_check(),
                self.to_check().len() as int,
                self.source(),
            ),
            self.is_extraction(self.extracted()),
    {
        let found = self.extraction();
        let ghost all = string_views(found@);
        let ignored = ignored_strings(&self.ignore_re, &found);
        assert(ignored@ =~= self.ignored());
        let strings = checked_strings(found, &ignored);
        let ghost kept = string_views(strings@);
        let mut typos: Vec<TypoSpaceBeforePunctuationMarks> = Vec::new();
        let mut i: usize = 0;
        assert(typo_views(typos@) =~= typos_listed(kept, 0, self.source@));
        while i < strings.len()
            invariant
                i <= strings.len(),
                kept == string_views(strings@),
                forall|k: int| 0 <= k < strings.len() ==> fits((#[trigger] strings[k])@),
                typo_views(typos@) == typos_listed(kept, i as int, self.source@),
            decreases strings.len() - i,
        {
            let ghost held = typos@;
            let mut more = check_string(&strings[i], &self.source);
            let ghost added = more@;
            assert(kept[i as int] == strings@[i as int]@);
            typos.append(&mut more);
            assert(typo_views(typos@) =~= typo_views(held) + typo_views(added));
            i += 1;
        }
        typos
    }

    /// The strings of the source.
    fn extraction(&self) -> (found: Vec<LintableString>)
        ensures
            string_views(found@) == self.extracted(),
            self.is_extraction(self.extracted()),
    {
        let bytes = self.source.as_bytes();
        let found = self.parsed.strings(bytes);
        proof {
            assert(self.source().bytes@ == bytes@);
            assert(self.strategy() == self.parsed.strategy());
            if self.strategy() != Strategy::Custom(CustomParser::Manifest) {
                let nodes = choose|nodes: Seq<LintableNodeView<'_>>|
                    is_selection(self.parsed.strategy(), nodes) && long_enough(nodes)
                        && string_views(found@) == #[trigger] strings_of_nodes(nodes, bytes@);
                assert(is_selection(self.strategy(), nodes) && long_enough(nodes) && string_views(
                    found@,
                ) == strings_of_nodes(nodes, self.source().bytes@));
            }
        }
        found
    }

    /// The descriptions of the source, where it is a manifest.
    pub closed spec fn manifest(&self) -> Seq<LintableStringView> {
        self.parsed.manifest()
    }

    /// Whether `strings` can be the strings of the source: those of the nodes
    /// that the language selects, or the descriptions of a manifest.
    pub open spec fn is_extraction(&self, strings: Seq<LintableStringView>) -> bool {
        if self.strategy() == Strategy::Custom(CustomParser::Manifest) {
            strings == self.manifest()
        } else {
            exists|nodes: Seq<LintableNodeView<'_>>|
                is_selection(self.strategy(), nodes) && long_enough(nodes) && strings
                    == #[trigger] strings_of_nodes(nodes, self.source().bytes@)
        }
    }

    /// Returns the strings that can be linted in the source
    pub fn strings(&self) -> (strings: Vec<String>)
        ensures
            crate::config::texts(strings@) == values_of(self.extracted()),
            self.is_extraction(self.extracted()),
    {
        let found = self.extraction();
        let ghost all = string_views(found@);
        let ghost n = all.len() as int;
        let mut rest = reversed(found);
        let mut strings: Vec<String> = Vec::new();
        while rest.len() > 0
            invariant
                n == all.len(),
                rest.len() + strings.len() == n,
                forall|k: int| 0 <= k < rest.len() ==> (#[trigger] rest[k])@ == all[n - 1 - k],
                forall|k: int| 0 <= k < strings.len() ==> (#[trigger] strings[k])@ == all[k].value,
            decreases rest.len(),
        {
            let string = rest.pop().unwrap();
            strings.push(string.into_string());
        }
        proof {
            assert(crate::config::texts(strings@) =~= values_of(all));
            assert(self.is_extraction(all));
        }
        strings
    }
}

/// The typos found in a file, given out one by one.
pub struct Iter {
    strings: Vec<LintableString>,
    position: usize,
    source: SharedSource,
    typos: Vec<TypoSpaceBeforePunctuationMarks>,
}

impl Iter {
    /// The strings that are checked.
    pub closed spec fn strings(&self) -> Seq<LintableStringView> {
        string_views(self.strings@)
    }

    /// How many of the strings have been checked.
    pub closed spec fn position(&self) -> int {
        self.position as int
    }

    /// The source that the typos point into.
    pub closed spec fn source(&self) -> NamedSource {
        self.source@
    }

    /// The typos that have been found and not given out, the next one last.
    pub closed spec fn found(&self) -> Seq<TypoView> {
        typo_views(self.typos@)
    }

    /// The typos that are still to come, the next one first.
    pub open spec fn pending(&self) -> Seq<TypoView> {
        self.found().reverse() + typos_from(self.strings(), self.position(), self.source())
    }

    /// Every string ends at an offset that the machine can hold.
    pub closed spec fn wf(&self) -> bool {
        &&& self.position <= self.strings@.len()
        &&& forall|k: int| 0 <= k < self.strings@.len() ==> fits((#[trigger] self.strings@[k])@)
    }

    /// The next typo, unless every typo has been given out.
    pub fn next(&mut self) -> (typo: Option<TypoSpaceBeforePunctuationMarks>)
        requires
            old(self).wf(),
        ensures
            final(self).wf(),
            final(self).strings() == old(self).strings(),
            final(self).source() == old(self).source(),
            old(self).pending().len() == 0 ==> typo is None && final(self).pending().len() == 0,
            old(self).pending().len() > 0 ==> {
                &&& typo matches Some(t)
                &&& t@ == old(self).pending()[0]
                &&& final(self).pending() == old(self).pending().drop_first()
            },
    {
        loop
            invariant
                self.wf(),
                self.strings() == old(self).strings(),
                self.source() == old(self).source(),
                self.pending() == old(self).pending(),
            decreases self.strings@.len() - self.position,
        {
            let ghost found = self.found();
            let ghost coming = typos_from(self.strings(), self.position(), self.source());
            match self.typos.pop() {
                Some(typo) => {
                    proof {
                        assert(found.reverse()[0] == typo@);
                        assert(self.found().reverse() =~= found.reverse().drop_first());
                        assert(self.pending() =~= (found.reverse() + coming).drop_first());
                    }
                    return Some(typo);
                },
                None => {},
            }
            assert(self.found().reverse() =~= Seq::<TypoView>::empty());
            if self.position >= self.strings.len() {
                return None;
            }
            let ghost at = self.position;
            let string = &self.strings[self.position];
            let ghost view = string@;
            assert(view == self.strings()[self.position()]);
            self.typos = check_string(string, &self.source);
            proof {
                assert(coming == typos_in(view, self.source()).reverse() + typos_from(
                    self.strings(),
                    at + 1,
                    self.source(),
                ));
            }
            self.position = self.position + 1;
            assert(self.pending() =~= old(self).pending());
        }
    }
}

} // verus!
