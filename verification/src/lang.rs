//! Parsers to find strings in various source code files
use globset::GlobSet;
use tree_sitter::Language as Grammar;
use tree_sitter::{Query, Tree};
use vstd::prelude::*;

use crate::glob::{
    add_pattern, ascending_below, build_set, builder_patterns, empty_set, glob_compiles,
    glob_matches, holds_number, new_builder, set_builds, set_matches, set_patterns,
};
use crate::grammar::{
    captures_of, compile_query, grammar_accepted, grammar_parses, markdown_parses, new_parser, parse_tree,
    query_captures, query_fits, set_language, Capture,
};
use crate::ranges::{meets, offsets_of, OffsetSet};
use crate::text::{is_one_of, lossy_text, lossy_utf8, same_text, words_of};
use crate::tree::{
    children_of, depths_of, is_preorder, parent_of, tree_nodes, SyntaxNode, SyntaxTree,
};
use crate::SharedSource;

pub mod c;
pub mod cargo_toml;
pub mod cpp;
pub mod go;
pub mod javascript;
pub mod json;
pub mod kotlin;
pub mod markdown;
pub mod python;
pub mod rust;
pub mod toml;
pub mod typescript;
pub mod yaml;

use self::cargo_toml::{manifest_of, manifest_strings, ParsedManifest};
use self::markdown::{prose_kinds, ParsedMarkdown};

verus! {

/// The bytes of a source from `start` up to, and without, `end`.
#[derive(Clone, Copy, PartialEq, Eq, Debug, Structural)]
pub struct ByteRange {
    pub start: usize,
    pub end: usize,
}

impl ByteRange {
    /// Whether the byte at offset `x` lies in the range.
    pub open spec fn covers(self, x: int) -> bool {
        self.start <= x < self.end
    }

    /// Whether the range holds no byte.
    pub open spec fn spec_is_empty(self) -> bool {
        self.start >= self.end
    }

    /// The bytes from `start` up to, and without, `end`.
    pub fn new(start: usize, end: usize) -> (range: Self)
        ensures
            range.start == start,
            range.end == end,
    {
        ByteRange { start, end }
    }

    /// Whether the range holds no byte.
    pub fn is_empty(&self) -> (empty: bool)
        ensures
            empty == self.spec_is_empty(),
    {
        self.start >= self.end
    }
}

/// Whether one of `ranges` holds the byte at offset `x`.
pub open spec fn covered(ranges: Seq<ByteRange>, x: int) -> bool {
    exists|k: int| 0 <= k < ranges.len() && (#[trigger] ranges[k]).covers(x)
}

/// Whether `ranges` hold a byte each, come in ascending order, and leave at
/// least one byte out between one and the next.
pub open spec fn separated(ranges: Seq<ByteRange>) -> bool {
    &&& forall|k: int| 0 <= k < ranges.len() ==> (#[trigger] ranges[k]).start < ranges[k].end
    &&& forall|k: int, l: int|
        0 <= k < l < ranges.len() ==> (#[trigger] ranges[k]).end < (#[trigger] ranges[l]).start
}

/// Whether `ranges` are what is left of `node` once `ignore` is cut out: they
/// hold the bytes of `node` that no range of `ignore` holds, each of them once
/// and no other byte, in as few pieces as can be, from left to right.
pub open spec fn is_reduction(ranges: Seq<ByteRange>, node: ByteRange, ignore: Seq<ByteRange>) -> bool {
    &&& separated(ranges)
    &&& forall|x: int|
        #![trigger covered(ranges, x)]
        #![trigger node.covers(x)]
        covered(ranges, x) <==> node.covers(x) && !covered(ignore, x)
}

/// Cuts the bytes of `ignore` out of `ranges`.
pub fn carve(ranges: &Vec<ByteRange>, ignore: ByteRange) -> (left: Vec<ByteRange>)
    requires
        separated(ranges@),
    ensures
        separated(left@),
        forall|x: int|
            #![trigger covered(left@, x)]
            #![trigger covered(ranges@, x)]
            covered(left@, x) <==> covered(ranges@, x) && !ignore.covers(x),
{
    let mut left: Vec<ByteRange> = Vec::new();
    let mut i: usize = 0;
    while i < ranges.len()
        invariant
            i <= ranges.len(),
            separated(ranges@),
            separated(left@),
            forall|k: int|
                0 <= k < left.len() ==> exists|j: int|
                    0 <= j < i && ranges[j].start <= (#[trigger] left[k]).start && left[k].end
                        <= ranges[j].end,
            forall|x: int|
                #![trigger covered(left@, x)]
                #![trigger covered(ranges@.take(i as int), x)]
                covered(left@, x) <==> covered(ranges@.take(i as int), x) && !ignore.covers(x),
        decreases ranges.len() - i,
    {
        let range = ranges[i];
        let ghost before = left@;
        let ghost seen = ranges@.take(i as int);
        let ghost now = ranges@.take(i + 1);
        assert(now =~= seen.push(range));
        assert forall|k: int| 0 <= k < before.len() implies (#[trigger] before[k]).end
            < range.start by {
            let j = choose|j: int|
                0 <= j < i && ranges[j].start <= before[k].start && before[k].end <= ranges[j].end;
            assert(ranges[j].end < ranges[i as int].start);
        }
        if ignore.is_empty() || ignore.end <= range.start || ignore.start >= range.end {
            left.push(range);
            assert(left@[before.len() as int] == range);
        } else {
            if range.start < ignore.start {
                left.push(ByteRange::new(range.start, ignore.start));
            }
            if ignore.end < range.end {
                left.push(ByteRange::new(ignore.end, range.end));
            }
        }
        proof {
            let after = left@;
            assert forall|k: int| 0 <= k < after.len() implies exists|j: int|
                0 <= j < i + 1 && ranges[j].start <= (#[trigger] after[k]).start && after[k].end
                    <= ranges[j].end by {
                if k < before.len() {
                    assert(after[k] == before[k]);
                    let j = choose|j: int|
                        0 <= j < i && ranges[j].start <= before[k].start && before[k].end
                            <= ranges[j].end;
                    assert(0 <= j < i + 1);
                } else {
                    assert(ranges[i as int].start <= after[k].start && after[k].end
                        <= ranges[i as int].end);
                }
            }
            assert forall|x: int|
                #![trigger covered(after, x)]
                #![trigger covered(now, x)]
                covered(after, x) <==> covered(now, x) && !ignore.covers(x) by {
                if covered(after, x) {
                    let k = choose|k: int| 0 <= k < after.len() && (#[trigger] after[k]).covers(x);
                    if k < before.len() {
                        assert(before[k].covers(x));
                        assert(covered(before, x));
                        let j = choose|j: int| 0 <= j < seen.len() && (#[trigger] seen[j]).covers(x);
                        assert(now[j].covers(x));
                    } else {
                        assert(now[i as int].covers(x));
                    }
                }
                if covered(now, x) && !ignore.covers(x) {
                    let j = choose|j: int| 0 <= j < now.len() && (#[trigger] now[j]).covers(x);
                    if j < i {
                        assert(seen[j].covers(x));
                        assert(covered(seen, x));
                        let k = choose|k: int|
                            0 <= k < before.len() && (#[trigger] before[k]).covers(x);
                        assert(after[k].covers(x));
                    } else {
                        assert(range.covers(x));
                        if after.len() == before.len() + 1 {
                            assert(after[before.len() as int].covers(x));
                        } else {
                            assert(after.len() == before.len() + 2);
                            assert(after[before.len() as int].covers(x) || after[before.len() as int + 1].covers(
                                x,
                            ));
                        }
                    }
                }
            }
        }
        i += 1;
    }
    assert(ranges@.take(ranges.len() as int) =~= ranges@);
    left
}

/// What is left of `node` once `ignore` is cut out of it.
pub open spec fn reduction(node: ByteRange, ignore: Seq<ByteRange>) -> Seq<ByteRange> {
    choose|ranges: Seq<ByteRange>| is_reduction(ranges, node, ignore)
}

/// Ranges that hold the same bytes start with the same range.
proof fn lemma_same_first(a: Seq<ByteRange>, b: Seq<ByteRange>)
    requires
        separated(a),
        separated(b),
        forall|x: int| #![trigger covered(a, x)] #![trigger covered(b, x)] covered(a, x) <==> covered(b, x),
        a.len() > 0,
    ensures
        b.len() > 0,
        a[0] == b[0],
{
    assert(a[0].covers(a[0].start as int));
    assert(covered(a, a[0].start as int));
    assert(covered(b, a[0].start as int));
    let k = choose|k: int| 0 <= k < b.len() && (#[trigger] b[k]).covers(a[0].start as int);
    assert(b[0].covers(b[0].start as int));
    assert(covered(b, b[0].start as int));
    assert(covered(a, b[0].start as int));
    let m = choose|m: int| 0 <= m < a.len() && (#[trigger] a[m]).covers(b[0].start as int);
    assert(a[0].start <= a[m].start);
    assert(b[0].start <= b[k].start);
    assert(a[0].start == b[0].start);
    if b[0].end < a[0].end {
        let x = b[0].end as int;
        assert(a[0].covers(x));
        assert(covered(a, x));
        assert(covered(b, x));
        let l = choose|l: int| 0 <= l < b.len() && (#[trigger] b[l]).covers(x);
        assert(l != 0);
        assert(b[0].end < b[l].start);
    }
    if a[0].end < b[0].end {
        let x = a[0].end as int;
        assert(b[0].covers(x));
        assert(covered(b, x));
        assert(covered(a, x));
        let l = choose|l: int| 0 <= l < a.len() && (#[trigger] a[l]).covers(x);
        assert(l != 0);
        assert(a[0].end < a[l].start);
    }
}

/// What is left of ranges that hold the same bytes, once the first range of
/// each is taken away, holds the same bytes again.
proof fn lemma_same_rest(a: Seq<ByteRange>, b: Seq<ByteRange>)
    requires
        separated(a),
        separated(b),
        forall|x: int| #![trigger covered(a, x)] #![trigger covered(b, x)] covered(a, x) <==> covered(b, x),
        a.len() > 0,
        b.len() > 0,
        a[0] == b[0],
    ensures
        separated(a.drop_first()),
        separated(b.drop_first()),
        forall|x: int|
            #![trigger covered(a.drop_first(), x)]
            #![trigger covered(b.drop_first(), x)]
            covered(a.drop_first(), x) <==> covered(b.drop_first(), x),
{
    let ta = a.drop_first();
    let tb = b.drop_first();
    assert forall|k: int, l: int| 0 <= k < l < ta.len() implies (#[trigger] ta[k]).end < (
    #[trigger] ta[l]).start by {
        assert(a[k + 1].end < a[l + 1].start);
    }
    assert forall|k: int, l: int| 0 <= k < l < tb.len() implies (#[trigger] tb[k]).end < (
    #[trigger] tb[l]).start by {
        assert(b[k + 1].end < b[l + 1].start);
    }
    assert forall|x: int|
        #![trigger covered(ta, x)]
        #![trigger covered(tb, x)]
        covered(ta, x) <==> covered(tb, x) by {
        if covered(ta, x) {
            let k = choose|k: int| 0 <= k < ta.len() && (#[trigger] ta[k]).covers(x);
            assert(a[k + 1].covers(x));
            assert(covered(a, x));
            assert(a[0].end < a[k + 1].start);
            let l = choose|l: int| 0 <= l < b.len() && (#[trigger] b[l]).covers(x);
            assert(l != 0);
            assert(tb[l - 1].covers(x));
        }
        if covered(tb, x) {
            let k = choose|k: int| 0 <= k < tb.len() && (#[trigger] tb[k]).covers(x);
            assert(b[k + 1].covers(x));
            assert(covered(b, x));
            assert(b[0].end < b[k + 1].start);
            let l = choose|l: int| 0 <= l < a.len() && (#[trigger] a[l]).covers(x);
            assert(l != 0);
            assert(ta[l - 1].covers(x));
        }
    }
}

/// Separated ranges that hold the same bytes are the same ranges.
pub proof fn lemma_separated_unique(a: Seq<ByteRange>, b: Seq<ByteRange>)
    requires
        separated(a),
        separated(b),
        forall|x: int| #![trigger covered(a, x)] #![trigger covered(b, x)] covered(a, x) <==> covered(b, x),
    ensures
        a == b,
    decreases a.len(),
{
    if a.len() == 0 {
        if b.len() > 0 {
            assert(b[0].covers(b[0].start as int));
            assert(covered(b, b[0].start as int));
            assert(covered(a, b[0].start as int));
        }
        assert(a =~= b);
    } else {
        lemma_same_first(a, b);
        lemma_same_rest(a, b);
        lemma_separated_unique(a.drop_first(), b.drop_first());
        assert(a =~= seq![a[0]] + a.drop_first());
        assert(b =~= seq![b[0]] + b.drop_first());
    }
}

/// What is left of `range` once the bytes of `ignore` are cut out of it: the
/// range itself, a piece of it on either side of `ignore`, or nothing.
pub open spec fn pieces(range: ByteRange, ignore: ByteRange) -> Seq<ByteRange> {
    if ignore.start >= ignore.end || ignore.end <= range.start || ignore.start >= range.end {
        seq![range]
    } else {
        let left: Seq<ByteRange> = if range.start < ignore.start {
            seq![ByteRange { start: range.start, end: ignore.start }]
        } else {
            Seq::empty()
        };
        let right: Seq<ByteRange> = if ignore.end < range.end {
            seq![ByteRange { start: ignore.end, end: range.end }]
        } else {
            Seq::empty()
        };
        left + right
    }
}

/// What is left of `ranges` once the bytes of `ignore` are cut out of them.
pub open spec fn carved(ranges: Seq<ByteRange>, ignore: ByteRange) -> Seq<ByteRange>
    decreases ranges.len(),
{
    if ranges.len() == 0 {
        Seq::empty()
    } else {
        carved(ranges.drop_last(), ignore) + pieces(ranges.last(), ignore)
    }
}

/// Cutting a range out of ranges that hold a byte each, in ascending order and
/// apart from each other, leaves such ranges, which hold the bytes that were
/// held and that the cut does not hold.
proof fn lemma_carved(ranges: Seq<ByteRange>, ignore: ByteRange)
    requires
        separated(ranges),
    ensures
        separated(carved(ranges, ignore)),
        forall|x: int|
            #![trigger covered(carved(ranges, ignore), x)]
            #![trigger covered(ranges, x)]
            covered(carved(ranges, ignore), x) <==> covered(ranges, x) && !ignore.covers(x),
        forall|k: int|
            0 <= k < carved(ranges, ignore).len() ==> ranges.len() > 0 && (#[trigger] carved(
                ranges,
                ignore,
            )[k]).end <= ranges.last().end,
    decreases ranges.len(),
{
    if ranges.len() > 0 {
        let first = ranges.drop_last();
        let last = ranges.last();
        let before = carved(first, ignore);
        let cut = pieces(last, ignore);
        let after = carved(ranges, ignore);
        assert forall|k: int, l: int| 0 <= k < l < first.len() implies (#[trigger] first[k]).end < (
        #[trigger] first[l]).start by {
            assert(ranges[k].end < ranges[l].start);
        }
        assert forall|k: int| 0 <= k < first.len() implies (#[trigger] first[k]).start
            < first[k].end by {
            assert(ranges[k].start < ranges[k].end);
        }
        lemma_carved(first, ignore);
        assert forall|k: int| 0 <= k < before.len() implies (#[trigger] before[k]).end
            < last.start by {
            assert(first.last() == ranges[ranges.len() - 2]);
            assert(ranges[ranges.len() - 2].end < ranges[ranges.len() - 1].start);
        }
        assert forall|k: int| 0 <= k < cut.len() implies last.start <= (#[trigger] cut[k]).start
            < cut[k].end <= last.end by {}
        assert forall|k: int, l: int| 0 <= k < l < after.len() implies (#[trigger] after[k]).end < (
        #[trigger] after[l]).start by {
            if l < before.len() {
                assert(before[k].end < before[l].start);
            } else if k < before.len() {
                assert(before[k].end < last.start);
                assert(last.start <= cut[l - before.len()].start);
            } else {
                assert(cut.len() == 2);
            }
        }
        assert forall|k: int| 0 <= k < after.len() implies (#[trigger] after[k]).start
            < after[k].end by {
            if k < before.len() {
                assert(before[k].start < before[k].end);
            } else {
                assert(cut[k - before.len()].start < cut[k - before.len()].end);
            }
        }
        assert forall|k: int| 0 <= k < after.len() implies (#[trigger] after[k]).end
            <= ranges.last().end by {
            if k < before.len() {
                assert(before[k].end < last.start);
            } else {
                assert(cut[k - before.len()].end <= last.end);
            }
        }
        assert forall|x: int|
            #![trigger covered(after, x)]
            #![trigger covered(ranges, x)]
            covered(after, x) <==> covered(ranges, x) && !ignore.covers(x) by {
            if covered(after, x) {
                let k = choose|k: int| 0 <= k < after.len() && (#[trigger] after[k]).covers(x);
                if k < before.len() {
                    assert(before[k].covers(x));
                    assert(covered(before, x));
                    let j = choose|j: int| 0 <= j < first.len() && (#[trigger] first[j]).covers(x);
                    assert(ranges[j].covers(x));
                } else {
                    assert(cut[k - before.len()].covers(x));
                    assert(ranges[ranges.len() - 1].covers(x));
                }
            }
            if covered(ranges, x) && !ignore.covers(x) {
                let j = choose|j: int| 0 <= j < ranges.len() && (#[trigger] ranges[j]).covers(x);
                if j < first.len() {
                    assert(first[j].covers(x));
                    assert(covered(first, x));
                    let k = choose|k: int| 0 <= k < before.len() && (#[trigger] before[k]).covers(x);
                    assert(after[k].covers(x));
                } else {
                    assert(last.covers(x));
                    if cut.len() == 1 {
                        assert(cut[0].covers(x));
                        assert(after[before.len() as int].covers(x));
                    } else {
                        assert(cut.len() == 2);
                        assert(cut[0].covers(x) || cut[1].covers(x));
                        assert(after[before.len() as int].covers(x) || after[before.len() as int
                            + 1].covers(x));
                    }
                }
            }
        }
    }
}

/// Something is left of every node, whatever is cut out of it, be it nothing:
/// the ranges that `reduction` names are what is left of the node.
pub proof fn lemma_reduction_exists(node: ByteRange, ignore: Seq<ByteRange>)
    ensures
        is_reduction(reduction(node, ignore), node, ignore),
    decreases ignore.len(),
{
    if ignore.len() == 0 {
        let whole: Seq<ByteRange> = if node.start < node.end {
            seq![node]
        } else {
            Seq::empty()
        };
        assert forall|x: int|
            #![trigger covered(whole, x)]
            #![trigger node.covers(x)]
            covered(whole, x) <==> node.covers(x) && !covered(ignore, x) by {
            if node.covers(x) {
                assert(whole[0].covers(x));
            }
        }
        assert(is_reduction(whole, node, ignore));
    } else {
        let first = ignore.drop_last();
        lemma_reduction_exists(node, first);
        let before = reduction(node, first);
        let left = carved(before, ignore.last());
        lemma_carved(before, ignore.last());
        assert forall|x: int|
            #![trigger covered(left, x)]
            #![trigger node.covers(x)]
            covered(left, x) <==> node.covers(x) && !covered(ignore, x) by {
            assert(covered(left, x) <==> covered(before, x) && !ignore.last().covers(x));
            assert(covered(before, x) <==> node.covers(x) && !covered(first, x));
            if covered(ignore, x) {
                let k = choose|k: int| 0 <= k < ignore.len() && (#[trigger] ignore[k]).covers(x);
                if k < ignore.len() - 1 {
                    assert(first[k].covers(x));
                }
            }
            if covered(first, x) {
                let k = choose|k: int| 0 <= k < first.len() && (#[trigger] first[k]).covers(x);
                assert(ignore[k].covers(x));
            }
            if ignore.last().covers(x) {
                assert(ignore[ignore.len() - 1].covers(x));
            }
        }
        assert(is_reduction(left, node, ignore));
    }
}

/// There is one way only to cut `ignore` out of `node`: every byte of `node`
/// that `ignore` does not hold lies in one range of the result, no other byte
/// lies in any, and no two ranges of the result share or touch a byte.
pub proof fn lemma_reduction_unique(ranges: Seq<ByteRange>, node: ByteRange, ignore: Seq<ByteRange>)
    requires
        is_reduction(ranges, node, ignore),
    ensures
        ranges == reduction(node, ignore),
        forall|x: int, k: int, l: int|
            0 <= k < ranges.len() && 0 <= l < ranges.len() && #[trigger] ranges[k].covers(x)
                && #[trigger] ranges[l].covers(x) ==> k == l,
{
    let other = reduction(node, ignore);
    assert(is_reduction(other, node, ignore));
    assert forall|x: int|
        #![trigger covered(ranges, x)]
        #![trigger covered(other, x)]
        covered(ranges, x) <==> covered(other, x) by {
        assert(covered(ranges, x) <==> node.covers(x) && !covered(ignore, x));
        assert(covered(other, x) <==> node.covers(x) && !covered(ignore, x));
    }
    lemma_separated_unique(ranges, other);
    assert forall|x: int, k: int, l: int|
        0 <= k < ranges.len() && 0 <= l < ranges.len() && #[trigger] ranges[k].covers(x)
            && #[trigger] ranges[l].covers(x) implies k == l by {
        if k < l {
            assert(ranges[k].end < ranges[l].start);
        }
        if l < k {
            assert(ranges[l].end < ranges[k].start);
        }
    }
}

/// What is left of `node` once every range of `ignore` is cut out of it.
///
/// The ranges of `ignore` may come in any order, overlap, be empty or reach
/// outside `node`.
pub fn reduce(node: ByteRange, ignore: &Vec<ByteRange>) -> (ranges: Vec<ByteRange>)
    ensures
        is_reduction(ranges@, node, ignore@),
        ranges@ == reduction(node, ignore@),
{
    let mut ranges: Vec<ByteRange> = Vec::new();
    if !node.is_empty() {
        ranges.push(node);
    }
    assert forall|x: int|
        #![trigger covered(ranges@, x)]
        #![trigger node.covers(x)]
        covered(ranges@, x) <==> node.covers(x) by {
        if node.covers(x) {
            assert(ranges@[0].covers(x));
        }
    }
    let mut i: usize = 0;
    while i < ignore.len()
        invariant
            i <= ignore.len(),
            is_reduction(ranges@, node, ignore@.take(i as int)),
        decreases ignore.len() - i,
    {
        let ghost before = ranges@;
        let ghost seen = ignore@.take(i as int);
        let ghost now = ignore@.take(i + 1);
        ranges = carve(&ranges, ignore[i]);
        proof {
            assert(now =~= seen.push(ignore@[i as int]));
            assert forall|x: int|
                #![trigger covered(now, x)]
                #![trigger covered(seen, x)]
                covered(now, x) <==> covered(seen, x) || ignore@[i as int].covers(x) by {
                if covered(now, x) {
                    let k = choose|k: int| 0 <= k < now.len() && (#[trigger] now[k]).covers(x);
                    if k < i {
                        assert(seen[k].covers(x));
                    }
                }
                if covered(seen, x) {
                    let k = choose|k: int| 0 <= k < seen.len() && (#[trigger] seen[k]).covers(x);
                    assert(now[k].covers(x));
                }
                if ignore@[i as int].covers(x) {
                    assert(now[i as int].covers(x));
                }
            }
        }
        i += 1;
    }
    assert(ignore@.take(ignore.len() as int) =~= ignore@);
    proof {
        lemma_reduction_unique(ranges@, node, ignore@);
    }
    ranges
}

/// How many bytes `ranges` hold together.
pub open spec fn total_len(ranges: Seq<ByteRange>) -> nat
    decreases ranges.len(),
{
    if ranges.len() == 0 {
        0
    } else {
        let last = ranges.last();
        let len: nat = if last.start <= last.end {
            (last.end - last.start) as nat
        } else {
            0
        };
        total_len(ranges.drop_last()) + len
    }
}

/// Whether `ranges` hold more than `floor` bytes together.
pub fn holds_more_than(ranges: &Vec<ByteRange>, floor: usize) -> (more: bool)
    ensures
        more == (total_len(ranges@) > floor),
{
    let mut held: usize = 0;
    let mut i: usize = 0;
    while i < ranges.len()
        invariant
            i <= ranges.len(),
            held <= floor,
            held == total_len(ranges@.take(i as int)),
        decreases ranges.len() - i,
    {
        let range = ranges[i];
        let len = if range.start <= range.end {
            range.end - range.start
        } else {
            0
        };
        proof {
            let now = ranges@.take(i + 1);
            assert(now.drop_last() =~= ranges@.take(i as int));
            assert(now.last() == range);
            lemma_total_len_grows(ranges@, i + 1);
        }
        if len > floor - held {
            return true;
        }
        held = held + len;
        i += 1;
    }
    assert(ranges@.take(ranges.len() as int) =~= ranges@);
    false
}

/// The first `n` of `ranges` hold no more bytes than all of them.
proof fn lemma_total_len_grows(ranges: Seq<ByteRange>, n: int)
    requires
        0 <= n <= ranges.len(),
    ensures
        total_len(ranges.take(n)) <= total_len(ranges),
    decreases ranges.len() - n,
{
    if n < ranges.len() {
        lemma_total_len_grows(ranges, n + 1);
        assert(ranges.take(n + 1).drop_last() =~= ranges.take(n));
    } else {
        assert(ranges.take(n) =~= ranges);
    }
}

/// The least number of bytes that a region must exceed to be checked: less
/// holds no typo worth a report.
pub const MIN_LEN: usize = 3;

/// A string that can be checked with its offset within its source
#[derive(PartialEq, Eq, Debug)]
pub struct LintableString {
    offset: usize,
    value: String,
}

/// What a [`LintableString`] holds.
pub struct LintableStringView {
    /// Where the string starts in its source.
    pub offset: nat,
    /// The text of the string.
    pub value: Seq<char>,
}

impl View for LintableString {
    type V = LintableStringView;

    closed spec fn view(&self) -> LintableStringView {
        LintableStringView { offset: self.offset as nat, value: self.value@ }
    }
}

impl LintableString {
    /// The string `value`, found at byte `offset` of its source.
    pub fn new(offset: usize, value: String) -> (string: Self)
        ensures
            string@ == (LintableStringView { offset: offset as nat, value: value@ }),
    {
        LintableString { offset, value }
    }

    /// Returns the string that can be checked for typos
    pub fn as_str(&self) -> (value: &str)
        ensures
            value@ == self@.value,
    {
        self.value.as_str()
    }

    /// Offset of the string within its source
    pub fn offset(&self) -> (offset: usize)
        ensures
            offset == self@.offset,
    {
        self.offset
    }

    /// The text alone.
    pub fn into_string(self) -> (value: String)
        ensures
            value@ == self@.value,
    {
        self.value
    }
}

/// What each of `strings` holds.
pub open spec fn string_views(strings: Seq<LintableString>) -> Seq<LintableStringView> {
    strings.map_values(|s: LintableString| s@)
}

/// The string that the bytes of `range` give.
pub open spec fn string_at(range: ByteRange, bytes: Seq<u8>) -> LintableStringView {
    LintableStringView {
        offset: range.start as nat,
        value: lossy_utf8(bytes.subrange(range.start as int, range.end as int)),
    }
}

/// Whether the string that the bytes of `range` give is the text that they
/// encode, where they lie within `bytes` and are UTF-8.
pub open spec fn decodes(range: ByteRange, bytes: Seq<u8>) -> bool {
    let piece = bytes.subrange(range.start as int, range.end as int);
    range.start <= range.end <= bytes.len() && vstd::utf8::valid_utf8(piece) ==> string_at(
        range,
        bytes,
    ).value == vstd::utf8::decode_utf8(piece)
}

/// The strings that `ranges` give, one for each range that lies within
/// `bytes`.
pub open spec fn strings_in(ranges: Seq<ByteRange>, bytes: Seq<u8>) -> Seq<LintableStringView>
    decreases ranges.len(),
{
    if ranges.len() == 0 {
        Seq::empty()
    } else {
        let first = strings_in(ranges.drop_last(), bytes);
        let range = ranges.last();
        if range.start <= range.end <= bytes.len() {
            first.push(string_at(range, bytes))
        } else {
            first
        }
    }
}

/// A node of a grammar tree that is worth checking, with the ranges of the
/// children that are not.
pub struct LintableNode<'t> {
    node: SyntaxNode<'t>,
    ignore_nodes: Vec<ByteRange>,
}

/// What a [`LintableNode`] holds.
pub struct LintableNodeView<'t> {
    /// The node.
    pub node: SyntaxNode<'t>,
    /// The ranges of the children that are left out.
    pub ignored: Seq<ByteRange>,
}

impl<'t> LintableNodeView<'t> {
    /// The bytes of the node.
    pub open spec fn byte_range(self) -> ByteRange {
        ByteRange { start: self.node.start, end: self.node.end }
    }

    /// The ranges of the node that are checked.
    pub open spec fn lintable_ranges(self) -> Seq<ByteRange> {
        reduction(self.byte_range(), self.ignored)
    }

    /// The strings of the node that are checked.
    pub open spec fn lintable_strings(self, bytes: Seq<u8>) -> Seq<LintableStringView> {
        strings_in(self.lintable_ranges(), bytes)
    }
}

impl<'t> View for LintableNode<'t> {
    type V = LintableNodeView<'t>;

    closed spec fn view(&self) -> LintableNodeView<'t> {
        LintableNodeView { node: self.node, ignored: self.ignore_nodes@ }
    }
}

/// What each of `nodes` holds.
pub open spec fn node_views<'t>(nodes: Seq<LintableNode<'t>>) -> Seq<LintableNodeView<'t>> {
    nodes.map_values(|n: LintableNode<'t>| n@)
}

/// The ranges of those of `children` whose kind is one of `kinds`.
pub open spec fn ranges_of_kinds(children: Seq<SyntaxNode<'_>>, kinds: Seq<Seq<char>>) -> Seq<
    ByteRange,
>
    decreases children.len(),
{
    if children.len() == 0 {
        Seq::empty()
    } else {
        let first = ranges_of_kinds(children.drop_last(), kinds);
        let child = children.last();
        if kinds.contains(child.kind@) {
            first.push(ByteRange { start: child.start, end: child.end })
        } else {
            first
        }
    }
}

impl<'t> LintableNode<'t> {
    /// The whole of `node`, with nothing left out.
    pub fn new(node: SyntaxNode<'t>) -> (lintable: Self)
        ensures
            lintable@ == (LintableNodeView { node, ignored: Seq::empty() }),
    {
        LintableNode { node, ignore_nodes: Vec::new() }
    }

    /// Selects the children ranges that are ignored: those of the `children`
    /// whose kind is one of `kinds`.
    pub fn ignore_children_ranges(self, children: &Vec<SyntaxNode<'t>>, kinds: &[&str]) -> (lintable:
        Self)
        ensures
            lintable@ == (LintableNodeView {
                node: self@.node,
                ignored: ranges_of_kinds(children@, words_of(kinds@)),
            }),
    {
        let mut ignore_nodes: Vec<ByteRange> = Vec::new();
        let mut i: usize = 0;
        while i < children.len()
            invariant
                i <= children.len(),
                ignore_nodes@ == ranges_of_kinds(children@.take(i as int), words_of(kinds@)),
            decreases children.len() - i,
        {
            let child = children[i];
            proof {
                let now = children@.take(i + 1);
                assert(now.drop_last() =~= children@.take(i as int));
                assert(now.last() == child);
            }
            if is_one_of(child.kind, kinds) {
                ignore_nodes.push(ByteRange::new(child.start, child.end));
            }
            i += 1;
        }
        assert(children@.take(children.len() as int) =~= children@);
        LintableNode { node: self.node, ignore_nodes }
    }

    /// Node's type
    pub fn kind(&self) -> (kind: &'t str)
        ensures
            kind@ == self@.node.kind@,
    {
        self.node.kind
    }

    /// Byte range of source code that this node represents
    pub fn byte_range(&self) -> (range: ByteRange)
        ensures
            range == self@.byte_range(),
    {
        ByteRange::new(self.node.start, self.node.end)
    }

    /// The ranges of the node that are checked: what is left of the node once
    /// the ignored children are cut out, from left to right.
    pub fn lintable_ranges(&self) -> (ranges: Vec<ByteRange>)
        ensures
            ranges@ == self@.lintable_ranges(),
            is_reduction(ranges@, self@.byte_range(), self@.ignored),
    {
        reduce(self.byte_range(), &self.ignore_nodes)
    }

    /// Returns the strings of the node that have not been ignored, as they
    /// stand in `bytes`. A range whose bytes are UTF-8 gives the text that
    /// they encode.
    pub fn lintable_strings(&self, bytes: &[u8]) -> (strings: Vec<LintableString>)
        ensures
            string_views(strings@) == self@.lintable_strings(bytes@),
            forall|k: int|
                0 <= k < self@.lintable_ranges().len() ==> decodes(
                    #[trigger] self@.lintable_ranges()[k],
                    bytes@,
                ),
    {
        let ranges = self.lintable_ranges();
        let mut strings: Vec<LintableString> = Vec::new();
        let mut i: usize = 0;
        while i < ranges.len()
            invariant
                i <= ranges.len(),
                string_views(strings@) == strings_in(ranges@.take(i as int), bytes@),
                forall|k: int| 0 <= k < i ==> decodes(#[trigger] ranges@[k], bytes@),
            decreases ranges.len() - i,
        {
            let range = ranges[i];
            let ghost before = strings@;
            proof {
                let now = ranges@.take(i + 1);
                assert(now.drop_last() =~= ranges@.take(i as int));
                assert(now.last() == range);
            }
            if range.start <= range.end && range.end <= bytes.len() {
                let piece = vstd::slice::slice_subrange(bytes, range.start, range.end);
                let string = LintableString::new(range.start, lossy_text(piece));
                strings.push(string);
                assert(string_views(strings@) =~= string_views(before).push(
                    string_at(range, bytes@),
                ));
            }
            i += 1;
        }
        assert(ranges@.take(ranges.len() as int) =~= ranges@);
        strings
    }
}

/// Whether node `i` is the content of a raw string literal: such a string
/// holds a pattern or a path rather than prose.
pub open spec fn is_raw_string_content(nodes: Seq<SyntaxNode<'_>>, i: int) -> bool {
    &&& 0 < i < nodes.len()
    &&& nodes[i].kind@ == "string_content"@
    &&& nodes[parent_of(depths_of(nodes), i)].kind@ == "raw_string_literal"@
}

/// Whether node `i` is checked where every node of one of `kinds` is: it
/// holds more than [`MIN_LEN`] bytes, its kind is one of `kinds`, and it is
/// not the content of a raw string literal.
pub open spec fn generic_lintable(nodes: Seq<SyntaxNode<'_>>, kinds: Seq<Seq<char>>, i: int) -> bool {
    &&& nodes[i].spec_len() > MIN_LEN
    &&& kinds.contains(nodes[i].kind@)
    &&& !is_raw_string_content(nodes, i)
}

/// Those of the first `n` nodes that are checked where every node of one of
/// `kinds` is, in document order, each as a whole.
pub open spec fn generic_selection<'t>(nodes: Seq<SyntaxNode<'t>>, kinds: Seq<Seq<char>>, n: int) -> Seq<
    LintableNodeView<'t>,
>
    decreases n,
{
    if n <= 0 {
        Seq::empty()
    } else {
        let first = generic_selection(nodes, kinds, n - 1);
        if generic_lintable(nodes, kinds, n - 1) {
            first.push(LintableNodeView { node: nodes[n - 1], ignored: Seq::empty() })
        } else {
            first
        }
    }
}

/// The nodes of `tree` that are checked where every node of one of `kinds` is.
pub fn select_generic<'t>(tree: &SyntaxTree<'t>, kinds: &[&str]) -> (selected: Vec<LintableNode<'t>>)
    requires
        tree.wf(),
    ensures
        node_views(selected@) == generic_selection(tree@, words_of(kinds@), tree@.len() as int),
{
    let mut selected: Vec<LintableNode<'t>> = Vec::new();
    let mut i: usize = 0;
    while i < tree.len()
        invariant
            i <= tree@.len(),
            tree.wf(),
            node_views(selected@) == generic_selection(tree@, words_of(kinds@), i as int),
        decreases tree@.len() - i,
    {
        let node = tree.node(i);
        let raw = same_text(node.kind, "string_content") && match tree.parent(i) {
            Some(parent) => same_text(tree.node(parent).kind, "raw_string_literal"),
            None => false,
        };
        if node.len() > MIN_LEN && is_one_of(node.kind, kinds) && !raw {
            let ghost before = selected@;
            selected.push(LintableNode::new(node));
            assert(node_views(selected@) =~= node_views(before).push(
                LintableNodeView { node, ignored: Seq::empty() },
            ));
        }
        i += 1;
    }
    selected
}

/// What has come of the captures of a query so far.
pub struct Captured<'t> {
    /// The nodes to check.
    pub nodes: Seq<LintableNodeView<'t>>,
    /// The nodes, by their number, that a capture with an ignored name has
    /// hit: nothing is checked in them, whatever captures them later.
    pub suppressed: Set<usize>,
}

/// What comes of the first `n` of `captures`.
///
/// A capture of at most [`MIN_LEN`] bytes counts for nothing. Without a list
/// of ignored names every other capture is checked. With one, a capture is
/// passed over when its node is suppressed or its name is not known; a capture
/// with an ignored name suppresses its node; every other capture is checked.
pub open spec fn captured<'t>(captures: Seq<Capture<'t>>, ignore: Option<Seq<Seq<char>>>, n: int) -> Captured<
    't,
>
    decreases n,
{
    if n <= 0 {
        Captured { nodes: Seq::empty(), suppressed: Set::empty() }
    } else {
        let first = captured(captures, ignore, n - 1);
        let capture = captures[n - 1];
        let checked = Captured {
            nodes: first.nodes.push(LintableNodeView { node: capture.node, ignored: Seq::empty() }),
            ..first
        };
        if capture.node.spec_len() <= MIN_LEN {
            first
        } else {
            match ignore {
                None => checked,
                Some(names) => {
                    if first.suppressed.contains(capture.node.id) {
                        first
                    } else {
                        match capture.name {
                            None => first,
                            Some(name) => {
                                if names.contains(name@) {
                                    Captured {
                                        suppressed: first.suppressed.insert(capture.node.id),
                                        ..first
                                    }
                                } else {
                                    checked
                                }
                            },
                        }
                    }
                },
            }
        }
    }
}

/// Whether `ids` holds `id`.
fn holds(ids: &Vec<usize>, id: usize) -> (found: bool)
    ensures
        found == ids@.contains(id),
{
    let mut i: usize = 0;
    while i < ids.len()
        invariant
            i <= ids.len(),
            forall|k: int| 0 <= k < i ==> ids[k] != id,
        decreases ids.len() - i,
    {
        if ids[i] == id {
            return true;
        }
        i += 1;
    }
    false
}

/// The nodes to check among the `captures` of a query, where captures with one
/// of the names of `ignore` mark what is not to be checked.
pub fn select_captures<'t>(captures: &Vec<Capture<'t>>, ignore: Option<&[&str]>) -> (selected: Vec<
    LintableNode<'t>,
>)
    ensures
        node_views(selected@) == captured(
            captures@,
            match ignore {
                Some(names) => Some(words_of(names@)),
                None => None,
            },
            captures@.len() as int,
        ).nodes,
{
    let ghost names = match ignore {
        Some(names) => Some(words_of(names@)),
        None => None,
    };
    let mut selected: Vec<LintableNode<'t>> = Vec::new();
    let mut suppressed: Vec<usize> = Vec::new();
    let mut i: usize = 0;
    while i < captures.len()
        invariant
            i <= captures.len(),
            names == match ignore {
                Some(names) => Some(words_of(names@)),
                None => None,
            },
            node_views(selected@) == captured(captures@, names, i as int).nodes,
            forall|id: usize|
                suppressed@.contains(id) <==> captured(captures@, names, i as int).suppressed.contains(
                    id,
                ),
        decreases captures.len() - i,
    {
        let capture = captures[i];
        let ghost before = selected@;
        let ghost marked = suppressed@;
        let mut check = false;
        if capture.node.len() > MIN_LEN {
            match ignore {
                None => {
                    check = true;
                },
                Some(ignored) => {
                    if !holds(&suppressed, capture.node.id) {
                        match capture.name {
                            None => {},
                            Some(name) => {
                                if is_one_of(name, ignored) {
                                    suppressed.push(capture.node.id);
                                    assert forall|id: usize|
                                        suppressed@.contains(id) <==> captured(
                                            captures@,
                                            names,
                                            i + 1,
                                        ).suppressed.contains(id) by {
                                        if marked.contains(id) {
                                            let k = choose|k: int|
                                                0 <= k < marked.len() && marked[k] == id;
                                            assert(suppressed@[k] == id);
                                        }
                                        if id == capture.node.id {
                                            assert(suppressed@[marked.len() as int] == id);
                                        }
                                    }
                                } else {
                                    check = true;
                                }
                            },
                        }
                    }
                },
            }
        }
        if check {
            selected.push(LintableNode::new(capture.node));
            assert(node_views(selected@) =~= node_views(before).push(
                LintableNodeView { node: capture.node, ignored: Seq::empty() },
            ));
        }
        i += 1;
    }
    selected
}

/// Whether the byte at offset `x` lies in a block quote of the Markdown blocks
/// `block`.
pub open spec fn quoted(block: Seq<SyntaxNode<'_>>, x: int) -> bool {
    exists|q: int|
        0 <= q < block.len() && (#[trigger] block[q]).kind@ == "block_quote"@ && block[q].start
            <= x < block[q].end
}

/// The offsets that lie in a block quote of `block`.
pub open spec fn quoted_offsets(block: Seq<SyntaxNode<'_>>) -> Set<int> {
    Set::new(|x: int| quoted(block, x))
}

/// Whether `node` shares a byte with a block quote of `block`.
pub open spec fn in_block_quote(block: Seq<SyntaxNode<'_>>, node: SyntaxNode<'_>) -> bool {
    meets(quoted_offsets(block), ByteRange { start: node.start, end: node.end })
}

/// The kinds of the children of inline Markdown that hold no prose: code, and
/// images with the place they are loaded from.
pub open spec fn unchecked_inline_kinds() -> Seq<Seq<char>> {
    seq!["code_span"@, "image"@]
}

/// Node `i` of the inline Markdown `inline`, with those of its children left
/// out that hold no prose.
pub open spec fn markdown_node<'t>(inline: Seq<SyntaxNode<'t>>, i: int) -> LintableNodeView<'t> {
    LintableNodeView {
        node: inline[i],
        ignored: ranges_of_kinds(children_of(inline, i), unchecked_inline_kinds()),
    }
}

/// Whether node `i` of the inline Markdown `inline` is checked: it shares no
/// byte with a block quote, it holds more than [`MIN_LEN`] bytes, also without
/// the children that are left out, and its kind is one of `kinds`.
pub open spec fn markdown_lintable(
    block: Seq<SyntaxNode<'_>>,
    inline: Seq<SyntaxNode<'_>>,
    kinds: Seq<Seq<char>>,
    i: int,
) -> bool {
    &&& !in_block_quote(block, inline[i])
    &&& inline[i].spec_len() > MIN_LEN
    &&& kinds.contains(inline[i].kind@)
    &&& total_len(markdown_node(inline, i).lintable_ranges()) > MIN_LEN
}

/// Those of the first `n` nodes of the inline Markdown `inline` that are
/// checked, in document order.
pub open spec fn markdown_selection<'t>(
    block: Seq<SyntaxNode<'_>>,
    inline: Seq<SyntaxNode<'t>>,
    kinds: Seq<Seq<char>>,
    n: int,
) -> Seq<LintableNodeView<'t>>
    decreases n,
{
    if n <= 0 {
        Seq::empty()
    } else {
        let first = markdown_selection(block, inline, kinds, n - 1);
        if markdown_lintable(block, inline, kinds, n - 1) {
            first.push(markdown_node(inline, n - 1))
        } else {
            first
        }
    }
}

/// What each of `trees` holds.
pub open spec fn tree_views<'t>(trees: Seq<SyntaxTree<'t>>) -> Seq<Seq<SyntaxNode<'t>>> {
    trees.map_values(|t: SyntaxTree<'t>| t@)
}

/// The nodes that are checked in the first `n` of the inline trees `inlines`,
/// tree after tree.
pub open spec fn markdown_selections<'t>(
    block: Seq<SyntaxNode<'_>>,
    inlines: Seq<Seq<SyntaxNode<'t>>>,
    kinds: Seq<Seq<char>>,
    n: int,
) -> Seq<LintableNodeView<'t>>
    decreases n,
{
    if n <= 0 {
        Seq::empty()
    } else {
        markdown_selections(block, inlines, kinds, n - 1) + markdown_selection(
            block,
            inlines[n - 1],
            kinds,
            inlines[n - 1].len() as int,
        )
    }
}

/// The offsets of the block quotes of `block`.
fn block_quotes(block: &SyntaxTree<'_>) -> (quotes: OffsetSet)
    ensures
        offsets_of(quotes) == quoted_offsets(block@),
{
    let mut quotes = OffsetSet::new();
    let mut i: usize = 0;
    assert(offsets_of(quotes) =~= quoted_offsets(block@.take(0)));
    while i < block.len()
        invariant
            i <= block@.len(),
            offsets_of(quotes) == quoted_offsets(block@.take(i as int)),
        decreases block@.len() - i,
    {
        let node = block.node(i);
        let ghost seen = block@.take(i as int);
        let ghost now = block@.take(i + 1);
        let quote = same_text(node.kind, "block_quote");
        if quote {
            quotes.insert(ByteRange::new(node.start, node.end));
        }
        proof {
            let range = ByteRange { start: node.start, end: node.end };
            assert forall|x: int| quoted(now, x) <==> quoted(seen, x) || (quote && range.covers(x)) by {
                if quoted(now, x) {
                    let q = choose|q: int|
                        0 <= q < now.len() && (#[trigger] now[q]).kind@ == "block_quote"@
                            && now[q].start <= x < now[q].end;
                    if q < i {
                        assert(seen[q] == now[q]);
                    }
                }
                if quoted(seen, x) {
                    let q = choose|q: int|
                        0 <= q < seen.len() && (#[trigger] seen[q]).kind@ == "block_quote"@
                            && seen[q].start <= x < seen[q].end;
                    assert(now[q] == seen[q]);
                }
                if quote && range.covers(x) {
                    assert(now[i as int] == node);
                }
            }
            assert(offsets_of(quotes) =~= quoted_offsets(now));
        }
        i += 1;
    }
    assert(block@.take(block@.len() as int) =~= block@);
    quotes
}

/// The nodes of one tree of inline Markdown that are checked.
fn select_inline<'t>(
    block: &SyntaxTree<'_>,
    quotes: &OffsetSet,
    inline: &SyntaxTree<'t>,
    kinds: &[&str],
    selected: &mut Vec<LintableNode<'t>>,
)
    requires
        inline.wf(),
        offsets_of(*quotes) == quoted_offsets(block@),
    ensures
        node_views(final(selected)@) == node_views(old(selected)@) + markdown_selection(
            block@,
            inline@,
            words_of(kinds@),
            inline@.len() as int,
        ),
{
    let mut i: usize = 0;
    assert(node_views(selected@) =~= node_views(old(selected)@) + Seq::empty());
    while i < inline.len()
        invariant
            i <= inline@.len(),
            inline.wf(),
            offsets_of(*quotes) == quoted_offsets(block@),
            node_views(selected@) == node_views(old(selected)@) + markdown_selection(
                block@,
                inline@,
                words_of(kinds@),
                i as int,
            ),
        decreases inline@.len() - i,
    {
        let node = inline.node(i);
        if !quotes.intersects(ByteRange::new(node.start, node.end)) && node.len() > MIN_LEN
            && is_one_of(node.kind, kinds) {
            let children = inline.children(i);
            let unchecked: [&str; 2] = ["code_span", "image"];
            assert(words_of(unchecked@) =~= unchecked_inline_kinds());
            let lintable = LintableNode::new(node).ignore_children_ranges(
                &children,
                unchecked.as_slice(),
            );
            let ranges = lintable.lintable_ranges();
            if holds_more_than(&ranges, MIN_LEN) {
                let ghost before = selected@;
                selected.push(lintable);
                assert(node_views(selected@) =~= node_views(before).push(
                    markdown_node(inline@, i as int),
                ));
            }
        }
        i += 1;
    }
}

/// The nodes of a Markdown document that are checked: those of the inline
/// trees `inlines`, tree after tree, that lie outside the block quotes of
/// `block`, each without its code spans and images.
pub fn select_markdown<'t>(block: &SyntaxTree<'_>, inlines: &Vec<SyntaxTree<'t>>, kinds: &[&str]) -> (selected:
    Vec<LintableNode<'t>>)
    requires
        forall|k: int| 0 <= k < inlines.len() ==> (#[trigger] inlines[k]).wf(),
    ensures
        node_views(selected@) == markdown_selections(
            block@,
            tree_views(inlines@),
            words_of(kinds@),
            inlines@.len() as int,
        ),
{
    let quotes = block_quotes(block);
    let mut selected: Vec<LintableNode<'t>> = Vec::new();
    let mut i: usize = 0;
    while i < inlines.len()
        invariant
            i <= inlines.len(),
            forall|k: int| 0 <= k < inlines.len() ==> (#[trigger] inlines[k]).wf(),
            offsets_of(quotes) == quoted_offsets(block@),
            node_views(selected@) == markdown_selections(
                block@,
                tree_views(inlines@),
                words_of(kinds@),
                i as int,
            ),
        decreases inlines.len() - i,
    {
        select_inline(block, &quotes, &inlines[i], kinds, &mut selected);
        i += 1;
    }
    selected
}

/// A copy of `words`.
pub fn copy_words(words: &Vec<&'static str>) -> (copy: Vec<&'static str>)
    ensures
        copy@ == words@,
{
    let mut copy: Vec<&'static str> = Vec::new();
    let mut i: usize = 0;
    while i < words.len()
        invariant
            i <= words.len(),
            copy@ == words@.take(i as int),
        decreases words.len() - i,
    {
        copy.push(words[i]);
        assert(copy@ =~= words@.take(i + 1));
        i += 1;
    }
    assert(words@.take(words.len() as int) =~= words@);
    copy
}

/// The parsers that read what no grammar tree gives as it stands.
#[derive(Clone, Copy, PartialEq, Eq, Debug, Structural)]
pub enum CustomParser {
    /// Markdown: prose outside block quotes, without code and images.
    Markdown,
    /// The manifest of a Rust package: its description.
    Manifest,
}

/// Defines how to parse this language to find relevant strings
pub enum Mode {
    /// Parse the language using a generic parser that iterates over strings with a given node type
    Generic { language: Grammar, tree_sitter_types: Vec<&'static str> },
    /// Parse the language using a custom parser
    Custom(CustomParser),
    /// Parse the language using a query
    Query {
        language: Grammar,
        query: String,
        ignore_captures: Option<Vec<&'static str>>,
    },
}

/// How the strings of a language are found, without the grammar itself.
pub enum Strategy {
    /// Every node whose kind is one of `kinds`.
    Generic { kinds: Seq<Seq<char>> },
    /// What one of the custom parsers finds.
    Custom(CustomParser),
    /// Every capture of `query`, but for what the captures named in `ignore`
    /// suppress.
    Query { query: Seq<char>, ignore: Option<Seq<Seq<char>>> },
}

impl Mode {
    /// Whether `source` can be parsed, or why not.
    ///
    /// With a grammar, the parser must take the grammar and give a tree for
    /// the source, and the query, where there is one, must fit the grammar.
    /// Markdown must give its trees, and a manifest its descriptions.
    pub open spec fn outcome(&self, source: Seq<u8>) -> Result<(), ParseError> {
        match self {
            Mode::Generic { language, tree_sitter_types } => {
                if !grammar_accepted(*language) {
                    Err(ParseError::IncompatibleGrammar)
                } else if !grammar_parses(*language, source) {
                    Err(ParseError::InvalidLanguage)
                } else {
                    Ok(())
                }
            },
            Mode::Custom(CustomParser::Markdown) => {
                if markdown_parses(source) {
                    Ok(())
                } else {
                    Err(ParseError::InvalidLanguage)
                }
            },
            Mode::Custom(CustomParser::Manifest) => match manifest_of(source) {
                Ok(_) => Ok(()),
                Err(e) => Err(e),
            },
            Mode::Query { language, query, ignore_captures } => {
                if !grammar_accepted(*language) {
                    Err(ParseError::IncompatibleGrammar)
                } else if !grammar_parses(*language, source) {
                    Err(ParseError::InvalidLanguage)
                } else if !query_fits(*language, query@) {
                    Err(ParseError::InvalidQuery)
                } else {
                    Ok(())
                }
            },
        }
    }

    /// How the strings are found, without the grammar itself.
    pub open spec fn strategy(&self) -> Strategy {
        match self {
            Mode::Generic { language, tree_sitter_types } => Strategy::Generic {
                kinds: words_of(tree_sitter_types@),
            },
            Mode::Custom(parser) => Strategy::Custom(*parser),
            Mode::Query { language, query, ignore_captures } => Strategy::Query {
                query: query@,
                ignore: match ignore_captures {
                    Some(names) => Some(words_of(names@)),
                    None => None,
                },
            },
        }
    }
}

/// Why a source could not be parsed.
#[derive(Clone, Copy, PartialEq, Eq, Debug, Structural)]
pub enum ParseError {
    /// The grammar was made for another version of the parser.
    IncompatibleGrammar,
    /// The parser gave no tree for the source.
    InvalidLanguage,
    /// The query of the language does not fit its grammar.
    InvalidQuery,
    /// The manifest is no TOML, or its package has no description.
    InvalidManifest,
}

impl ParseError {
    /// What went wrong, in a few words.
    pub open spec fn spec_message(&self) -> Seq<char> {
        match self {
            ParseError::IncompatibleGrammar => "Incompatible language version"@,
            ParseError::InvalidLanguage => "Invalid language"@,
            ParseError::InvalidQuery => "Invalid query"@,
            ParseError::InvalidManifest => "Invalid manifest"@,
        }
    }

    /// What went wrong, in a few words.
    pub fn message(&self) -> (message: &'static str)
        ensures
            message@ == self.spec_message(),
    {
        match self {
            ParseError::IncompatibleGrammar => "Incompatible language version",
            ParseError::InvalidLanguage => "Invalid language",
            ParseError::InvalidQuery => "Invalid query",
            ParseError::InvalidManifest => "Invalid manifest",
        }
    }
}

/// Parser for a language to find strings based on its grammar
pub struct Language {
    name: &'static str,
    detections: Vec<&'static str>,
    parser: Mode,
}

/// What a [`Language`] is, without its grammar.
pub struct LanguageView {
    /// The name of the language.
    pub name: Seq<char>,
    /// The glob patterns of the file names that the language takes.
    pub detections: Seq<Seq<char>>,
    /// How its strings are found.
    pub strategy: Strategy,
}

impl View for Language {
    type V = LanguageView;

    closed spec fn view(&self) -> LanguageView {
        LanguageView {
            name: self.name@,
            detections: words_of(self.detections@),
            strategy: self.parser.strategy(),
        }
    }
}

/// A file that has been parsed with the grammar of its language.
pub struct ParsedGeneric {
    tree: Tree,
    tree_sitter_types: Vec<&'static str>,
}

/// A file that has been parsed, with the query that finds its strings.
pub struct ParsedQuery {
    tree: Tree,
    query: Query,
    text: String,
    source: SharedSource,
    ignore_captures: Option<Vec<&'static str>>,
}

/// Type that represents a file that has been parsed
pub enum Parsed {
    Generic(ParsedGeneric),
    Query(ParsedQuery),
    Markdown(ParsedMarkdown),
    Manifest(ParsedManifest),
}

/// The strings of `nodes`, node after node.
pub open spec fn strings_of_nodes(nodes: Seq<LintableNodeView<'_>>, bytes: Seq<u8>) -> Seq<
    LintableStringView,
>
    decreases nodes.len(),
{
    if nodes.len() == 0 {
        Seq::empty()
    } else {
        strings_of_nodes(nodes.drop_last(), bytes) + nodes.last().lintable_strings(bytes)
    }
}

/// Whether `nodes` are those of some tree whose kind is one of `kinds`.
pub open spec fn is_generic_selection(kinds: Seq<Seq<char>>, nodes: Seq<LintableNodeView<'_>>) -> bool {
    exists|tree: Seq<SyntaxNode<'_>>|
        is_preorder(tree) && nodes == #[trigger] generic_selection(tree, kinds, tree.len() as int)
}

/// Whether `nodes` are what comes of some captures of a query.
pub open spec fn is_query_selection(ignore: Option<Seq<Seq<char>>>, nodes: Seq<LintableNodeView<'_>>) -> bool {
    exists|captures: Seq<Capture<'_>>|
        nodes == (#[trigger] captured(captures, ignore, captures.len() as int)).nodes
}

/// Whether `nodes` are the prose of some Markdown document.
pub open spec fn is_markdown_selection(nodes: Seq<LintableNodeView<'_>>) -> bool {
    exists|block: Seq<SyntaxNode<'_>>, inlines: Seq<Seq<SyntaxNode<'_>>>|
        nodes == #[trigger] markdown_selections(block, inlines, prose_kinds(), inlines.len() as int)
}

/// Whether `nodes` can come out of a source with `strategy`: there is a tree,
/// or there are captures, of which `nodes` are the selection.
pub open spec fn is_selection(strategy: Strategy, nodes: Seq<LintableNodeView<'_>>) -> bool {
    match strategy {
        Strategy::Generic { kinds } => is_generic_selection(kinds, nodes),
        Strategy::Query { query, ignore } => is_query_selection(ignore, nodes),
        Strategy::Custom(CustomParser::Markdown) => is_markdown_selection(nodes),
        Strategy::Custom(CustomParser::Manifest) => nodes.len() == 0,
    }
}

/// Whether each of `nodes` holds more than [`MIN_LEN`] bytes, also without
/// what is left out of it.
pub open spec fn long_enough(nodes: Seq<LintableNodeView<'_>>) -> bool {
    forall|k: int|
        0 <= k < nodes.len() ==> (#[trigger] nodes[k]).node.spec_len() > MIN_LEN && total_len(
            nodes[k].lintable_ranges(),
        ) > MIN_LEN
}

/// A node with nothing left out is checked as a whole.
pub proof fn lemma_whole_node(node: SyntaxNode<'_>)
    requires
        node.spec_len() > 0,
    ensures
        (LintableNodeView { node, ignored: Seq::empty() }).lintable_ranges() == seq![
            ByteRange { start: node.start, end: node.end },
        ],
        total_len((LintableNodeView { node, ignored: Seq::empty() }).lintable_ranges())
            == node.spec_len(),
{
    let range = ByteRange { start: node.start, end: node.end };
    let ranges = seq![range];
    assert forall|x: int|
        #![trigger covered(ranges, x)]
        #![trigger range.covers(x)]
        covered(ranges, x) <==> range.covers(x) && !covered(Seq::<ByteRange>::empty(), x) by {
        if range.covers(x) {
            assert(ranges[0].covers(x));
        }
    }
    lemma_reduction_unique(ranges, range, Seq::empty());
    assert(ranges.drop_last() =~= Seq::<ByteRange>::empty());
    assert(total_len(ranges.drop_last()) == 0);
}

/// No region of at most [`MIN_LEN`] bytes is checked where every node of some
/// kinds is.
pub proof fn lemma_generic_long_enough(nodes: Seq<SyntaxNode<'_>>, kinds: Seq<Seq<char>>, n: int)
    ensures
        long_enough(generic_selection(nodes, kinds, n)),
    decreases n,
{
    if n > 0 {
        lemma_generic_long_enough(nodes, kinds, n - 1);
        if generic_lintable(nodes, kinds, n - 1) {
            lemma_whole_node(nodes[n - 1]);
        }
    }
}

/// No region of at most [`MIN_LEN`] bytes is checked among the captures of a
/// query.
pub proof fn lemma_captured_long_enough(captures: Seq<Capture<'_>>, ignore: Option<Seq<Seq<char>>>, n: int)
    ensures
        long_enough(captured(captures, ignore, n).nodes),
    decreases n,
{
    if n > 0 {
        lemma_captured_long_enough(captures, ignore, n - 1);
        if captures[n - 1].node.spec_len() > MIN_LEN {
            lemma_whole_node(captures[n - 1].node);
        }
    }
}

/// No region of at most [`MIN_LEN`] bytes is checked in a tree of inline
/// Markdown.
pub proof fn lemma_markdown_long_enough(
    block: Seq<SyntaxNode<'_>>,
    inline: Seq<SyntaxNode<'_>>,
    kinds: Seq<Seq<char>>,
    n: int,
)
    ensures
        long_enough(markdown_selection(block, inline, kinds, n)),
    decreases n,
{
    if n > 0 {
        lemma_markdown_long_enough(block, inline, kinds, n - 1);
    }
}

/// No region of at most [`MIN_LEN`] bytes is checked in a Markdown document.
pub proof fn lemma_markdown_all_long_enough(
    block: Seq<SyntaxNode<'_>>,
    inlines: Seq<Seq<SyntaxNode<'_>>>,
    kinds: Seq<Seq<char>>,
    n: int,
)
    ensures
        long_enough(markdown_selections(block, inlines, kinds, n)),
    decreases n,
{
    if n > 0 {
        lemma_markdown_all_long_enough(block, inlines, kinds, n - 1);
        lemma_markdown_long_enough(block, inlines[n - 1], kinds, inlines[n - 1].len() as int);
    }
}

/// The content of a raw string literal is never checked where every node of
/// some kinds is.
pub proof fn lemma_raw_strings_are_left_alone(nodes: Seq<SyntaxNode<'_>>, kinds: Seq<Seq<char>>, n: int, k: int)
    requires
        0 <= k < generic_selection(nodes, kinds, n).len(),
        n <= nodes.len(),
    ensures
        exists|i: int|
            0 <= i < n && generic_selection(nodes, kinds, n)[k].node == #[trigger] nodes[i]
                && !is_raw_string_content(nodes, i),
    decreases n,
{
    if n > 0 {
        let first = generic_selection(nodes, kinds, n - 1);
        if k < first.len() {
            lemma_raw_strings_are_left_alone(nodes, kinds, n - 1, k);
            let i = choose|i: int|
                0 <= i < n - 1 && first[k].node == #[trigger] nodes[i] && !is_raw_string_content(
                    nodes,
                    i,
                );
            assert(generic_selection(nodes, kinds, n)[k].node == nodes[i]);
        } else {
            assert(generic_selection(nodes, kinds, n)[k].node == nodes[n - 1]);
        }
    }
}

/// In Markdown, nothing is checked in a block quote, in a code span or in an
/// image: a byte that a checked range of node `i` holds lies in no block quote
/// and in no child of the node that is a code span or an image.
pub proof fn lemma_markdown_suppression(
    block: Seq<SyntaxNode<'_>>,
    inline: Seq<SyntaxNode<'_>>,
    kinds: Seq<Seq<char>>,
    i: int,
    x: int,
)
    requires
        markdown_lintable(block, inline, kinds, i),
        covered(markdown_node(inline, i).lintable_ranges(), x),
    ensures
        !quoted(block, x),
        inline[i].start <= x < inline[i].end,
        forall|c: int|
            0 <= c < children_of(inline, i).len() && unchecked_inline_kinds().contains(
                (#[trigger] children_of(inline, i)[c]).kind@,
            ) ==> !(children_of(inline, i)[c].start <= x < children_of(inline, i)[c].end),
{
    let node = markdown_node(inline, i);
    lemma_reduction_exists(node.byte_range(), node.ignored);
    assert(node.byte_range().covers(x) && !covered(node.ignored, x));
    if quoted(block, x) {
        assert(quoted_offsets(block).contains(x));
        assert(node.byte_range().covers(x));
        assert(meets(quoted_offsets(block), node.byte_range()));
    }
    assert forall|c: int|
        0 <= c < children_of(inline, i).len() && unchecked_inline_kinds().contains(
            (#[trigger] children_of(inline, i)[c]).kind@,
        ) implies !(children_of(inline, i)[c].start <= x < children_of(inline, i)[c].end) by {
        let children = children_of(inline, i);
        if children[c].start <= x < children[c].end {
            lemma_ranges_of_kinds_holds(children, unchecked_inline_kinds(), c);
            let k = choose|k: int|
                0 <= k < node.ignored.len() && #[trigger] node.ignored[k] == (ByteRange {
                    start: children[c].start,
                    end: children[c].end,
                });
            assert(node.ignored[k].covers(x));
        }
    }
}

/// Every child whose kind is one of `kinds` has its range among the ranges of
/// those kinds.
proof fn lemma_ranges_of_kinds_holds(children: Seq<SyntaxNode<'_>>, kinds: Seq<Seq<char>>, c: int)
    requires
        0 <= c < children.len(),
        kinds.contains(children[c].kind@),
    ensures
        exists|k: int|
            0 <= k < ranges_of_kinds(children, kinds).len() && #[trigger] ranges_of_kinds(
                children,
                kinds,
            )[k] == (ByteRange { start: children[c].start, end: children[c].end }),
    decreases children.len(),
{
    let first = ranges_of_kinds(children.drop_last(), kinds);
    if c == children.len() - 1 {
        assert(ranges_of_kinds(children, kinds)[first.len() as int] == (ByteRange {
            start: children[c].start,
            end: children[c].end,
        }));
    } else {
        lemma_ranges_of_kinds_holds(children.drop_last(), kinds, c);
        let k = choose|k: int|
            0 <= k < first.len() && #[trigger] first[k] == (ByteRange {
                start: children[c].start,
                end: children[c].end,
            });
        assert(ranges_of_kinds(children, kinds)[k] == first[k]);
    }
}

impl Language {
    /// A language called `name`, for the files that one of the glob patterns
    /// `detections` matches, whose strings are found by `parser`.
    pub fn new(name: &'static str, detections: Vec<&'static str>, parser: Mode) -> (language: Self)
        ensures
            language@ == (LanguageView {
                name: name@,
                detections: words_of(detections@),
                strategy: parser.strategy(),
            }),
            language.mode() == parser,
    {
        Language { name, detections, parser }
    }

    /// Returns an array of glob patterns of files supported by this language
    pub fn detections(&self) -> (detections: &[&'static str])
        ensures
            words_of(detections@) == self@.detections,
    {
        self.detections.as_slice()
    }

    /// Returns the name of the language
    pub fn name(&self) -> (name: &'static str)
        ensures
            name@ == self@.name,
    {
        self.name
    }

    /// How the language is parsed, with its grammar.
    pub closed spec fn mode(&self) -> Mode {
        self.parser
    }

    /// Whether `source` can be parsed as this language, or why not.
    pub open spec fn outcome(&self, source: Seq<u8>) -> Result<(), ParseError> {
        self.mode().outcome(source)
    }

    /// The way in which the language finds its strings is that of its mode.
    pub proof fn lemma_mode(&self)
        ensures
            self.mode().strategy() == self@.strategy,
    {
    }

    /// A manifest is refused exactly where it gives no descriptions, and a
    /// Markdown document exactly where the parser gives no trees for it.
    pub proof fn lemma_custom_outcome(&self, source: Seq<u8>)
        ensures
            self@.strategy == Strategy::Custom(CustomParser::Manifest) ==> self.outcome(source)
                == match manifest_of(source) {
                Ok(_) => Ok::<(), ParseError>(()),
                Err(e) => Err::<(), ParseError>(e),
            },
            self@.strategy == Strategy::Custom(CustomParser::Markdown) ==> self.outcome(source)
                == if markdown_parses(source) {
                Ok::<(), ParseError>(())
            } else {
                Err::<(), ParseError>(ParseError::InvalidLanguage)
            },
    {
    }

    /// Parses the content of a file
    ///
    /// The outcome is that of the parser of the language. What comes out of a
    /// success finds its strings as the language says.
    pub fn parse(&self, source: &SharedSource) -> (parsed: Result<Parsed, ParseError>)
        ensures
            match self.outcome(source@.bytes@) {
                Ok(_) => parsed is Ok,
                Err(e) => parsed matches Err(refused) && refused == e,
            },
            parsed matches Ok(p) ==> p.strategy() == self@.strategy,
            parsed matches Err(e) ==> match self@.strategy {
                Strategy::Generic { kinds } => e == ParseError::IncompatibleGrammar || e
                    == ParseError::InvalidLanguage,
                Strategy::Custom(CustomParser::Markdown) => e == ParseError::InvalidLanguage,
                Strategy::Custom(CustomParser::Manifest) => e == ParseError::InvalidManifest,
                Strategy::Query { query, ignore } => e == ParseError::IncompatibleGrammar || e
                    == ParseError::InvalidLanguage || e == ParseError::InvalidQuery,
            },
    {
        match &self.parser {
            Mode::Generic { language, tree_sitter_types } => {
                let mut parser = new_parser();
                match set_language(&mut parser, language) {
                    Ok(_) => {},
                    Err(_) => {
                        return Err(ParseError::IncompatibleGrammar);
                    },
                }
                match parse_tree(&mut parser, source.as_bytes()) {
                    Some(tree) => Ok(
                        Parsed::Generic(
                            ParsedGeneric { tree, tree_sitter_types: copy_words(tree_sitter_types) },
                        ),
                    ),
                    None => Err(ParseError::InvalidLanguage),
                }
            },
            Mode::Custom(CustomParser::Markdown) => match ParsedMarkdown::new(source.as_bytes()) {
                Ok(parsed) => Ok(Parsed::Markdown(parsed)),
                Err(e) => Err(e),
            },
            Mode::Custom(CustomParser::Manifest) => match ParsedManifest::new(source.as_bytes()) {
                Ok(parsed) => Ok(Parsed::Manifest(parsed)),
                Err(e) => Err(e),
            },
            Mode::Query { language, query, ignore_captures } => {
                let mut parser = new_parser();
                match set_language(&mut parser, language) {
                    Ok(_) => {},
                    Err(_) => {
                        return Err(ParseError::IncompatibleGrammar);
                    },
                }
                let tree = match parse_tree(&mut parser, source.as_bytes()) {
                    Some(tree) => tree,
                    None => {
                        return Err(ParseError::InvalidLanguage);
                    },
                };
                let compiled = match compile_query(language, query.as_str()) {
                    Ok(compiled) => compiled,
                    Err(_) => {
                        return Err(ParseError::InvalidQuery);
                    },
                };
                let ignore_captures = match ignore_captures {
                    Some(names) => Some(copy_words(names)),
                    None => None,
                };
                Ok(
                    Parsed::Query(
                        ParsedQuery {
                            tree,
                            query: compiled,
                            text: query.clone(),
                            source: source.share(),
                            ignore_captures,
                        },
                    ),
                )
            },
        }
    }
}

impl ParsedGeneric {
    /// The kinds of the nodes that are checked.
    pub closed spec fn kinds(&self) -> Seq<Seq<char>> {
        words_of(self.tree_sitter_types@)
    }

    /// The nodes of the tree that are checked: those whose kind is one of the
    /// kinds of the language, in document order.
    pub closed spec fn selected(&self) -> Seq<LintableNodeView<'static>> {
        generic_selection(tree_nodes(self.tree), self.kinds(), tree_nodes(self.tree).len() as int)
    }

    /// The nodes to check: those whose kind is one of the kinds of the
    /// language, in document order.
    pub fn lintable_nodes<'t>(&'t self) -> (nodes: Vec<LintableNode<'t>>)
        ensures
            node_views(nodes@) == self.selected(),
            is_generic_selection(self.kinds(), node_views(nodes@)),
            long_enough(node_views(nodes@)),
    {
        let tree = SyntaxTree::from_tree(&self.tree);
        let nodes = select_generic(&tree, self.tree_sitter_types.as_slice());
        proof {
            lemma_generic_long_enough(tree@, self.kinds(), tree@.len() as int);
            let witness = tree@;
            assert(is_preorder(witness) && node_views(nodes@) == generic_selection(
                witness,
                self.kinds(),
                witness.len() as int,
            ));
        }
        nodes
    }
}

impl ParsedQuery {
    /// The query, as it was written.
    pub closed spec fn query(&self) -> Seq<char> {
        self.text@
    }

    /// The names of the captures that mark what is not to be checked.
    pub closed spec fn ignore(&self) -> Option<Seq<Seq<char>>> {
        match self.ignore_captures {
            Some(names) => Some(words_of(names@)),
            None => None,
        }
    }

    /// The captures of the query in the tree.
    pub closed spec fn captures(&self) -> Seq<Capture<'static>> {
        captures_of(self.query, self.tree, self.source@.bytes@)
    }

    /// The nodes that are checked: what the query captures, without what it
    /// marks as not to be checked.
    pub open spec fn selected(&self) -> Seq<LintableNodeView<'static>> {
        captured(self.captures(), self.ignore(), self.captures().len() as int).nodes
    }

    /// The nodes to check: what the query captures, without what it marks as
    /// not to be checked.
    pub fn lintable_nodes<'t>(&'t self) -> (nodes: Vec<LintableNode<'t>>)
        ensures
            node_views(nodes@) == self.selected(),
            is_query_selection(self.ignore(), node_views(nodes@)),
            long_enough(node_views(nodes@)),
    {
        let captures = query_captures(&self.query, &self.tree, self.source.as_bytes());
        let nodes = match &self.ignore_captures {
            Some(names) => select_captures(&captures, Some(names.as_slice())),
            None => select_captures(&captures, None),
        };
        proof {
            lemma_captured_long_enough(captures@, self.ignore(), captures@.len() as int);
            assert(node_views(nodes@) == captured(
                captures@,
                self.ignore(),
                captures@.len() as int,
            ).nodes);
        }
        nodes
    }
}

impl Parsed {
    /// How the strings are found.
    pub closed spec fn strategy(&self) -> Strategy {
        match self {
            Parsed::Generic(parsed) => Strategy::Generic { kinds: parsed.kinds() },
            Parsed::Query(parsed) => Strategy::Query {
                query: parsed.query(),
                ignore: parsed.ignore(),
            },
            Parsed::Markdown(parsed) => Strategy::Custom(CustomParser::Markdown),
            Parsed::Manifest(parsed) => Strategy::Custom(CustomParser::Manifest),
        }
    }

    /// The strings of the manifest, where this is one.
    pub closed spec fn manifest(&self) -> Seq<LintableStringView> {
        match self {
            Parsed::Manifest(parsed) => manifest_strings(*parsed),
            _ => Seq::empty(),
        }
    }

    /// The nodes that are checked: the selection that the language makes
    /// among the nodes of the tree or the captures of the query. A manifest has
    /// none.
    pub closed spec fn selected(&self) -> Seq<LintableNodeView<'static>> {
        match self {
            Parsed::Generic(parsed) => parsed.selected(),
            Parsed::Query(parsed) => parsed.selected(),
            Parsed::Markdown(parsed) => parsed.selected(),
            Parsed::Manifest(parsed) => Seq::empty(),
        }
    }

    /// The strings that are checked in `source`: those of the nodes that are
    /// checked, node after node; for a manifest, its descriptions.
    pub open spec fn extracted(&self, source: Seq<u8>) -> Seq<LintableStringView> {
        if self.strategy() == Strategy::Custom(CustomParser::Manifest) {
            self.manifest()
        } else {
            strings_of_nodes(self.selected(), source)
        }
    }

    /// Returns the lintable nodes based on the language grammar
    ///
    /// Each of them holds more than [`MIN_LEN`] bytes, also without what is
    /// left out of it.
    pub fn lintable_nodes<'t>(&'t self) -> (nodes: Vec<LintableNode<'t>>)
        ensures
            node_views(nodes@) == self.selected(),
            is_selection(self.strategy(), node_views(nodes@)),
            long_enough(node_views(nodes@)),
    {
        match self {
            Parsed::Generic(parsed) => parsed.lintable_nodes(),
            Parsed::Query(parsed) => parsed.lintable_nodes(),
            Parsed::Markdown(parsed) => parsed.lintable_nodes(),
            Parsed::Manifest(parsed) => Vec::new(),
        }
    }

    /// Returns the strings found in the source based on the language grammar
    ///
    /// These are the strings of the lintable nodes, node after node, as they
    /// stand in `source`; for a manifest, its descriptions.
    pub fn strings(&self, source: &[u8]) -> (strings: Vec<LintableString>)
        ensures
            string_views(strings@) == self.extracted(source@),
            self.strategy() == Strategy::Custom(CustomParser::Manifest) ==> string_views(strings@)
                == self.manifest(),
            self.strategy() != Strategy::Custom(CustomParser::Manifest) ==> exists|
                nodes: Seq<LintableNodeView<'_>>,
            |
                is_selection(self.strategy(), nodes) && long_enough(nodes) && string_views(strings@)
                    == #[trigger] strings_of_nodes(nodes, source@),
    {
        match self {
            Parsed::Manifest(parsed) => parsed.strings(),
            _ => {
                let nodes = self.lintable_nodes();
                let strings = strings_of(&nodes, source);
                assert(string_views(strings@) == strings_of_nodes(node_views(nodes@), source@));
                strings
            },
        }
    }
}

/// The strings of `nodes`, node after node, as they stand in `source`.
pub fn strings_of(nodes: &Vec<LintableNode<'_>>, source: &[u8]) -> (strings: Vec<LintableString>)
    ensures
        string_views(strings@) == strings_of_nodes(node_views(nodes@), source@),
{
    let mut strings: Vec<LintableString> = Vec::new();
    let mut i: usize = 0;
    assert(string_views(strings@) =~= Seq::empty());
    while i < nodes.len()
        invariant
            i <= nodes.len(),
            string_views(strings@) == strings_of_nodes(node_views(nodes@.take(i as int)), source@),
        decreases nodes.len() - i,
    {
        let mut more = nodes[i].lintable_strings(source);
        let ghost before = strings@;
        let ghost added = more@;
        proof {
            let now = node_views(nodes@.take(i + 1));
            assert(now.drop_last() =~= node_views(nodes@.take(i as int)));
            assert(now.last() == nodes@[i as int]@);
        }
        strings.append(&mut more);
        assert(string_views(strings@) =~= string_views(before) + string_views(added));
        i += 1;
    }
    assert(nodes@.take(nodes.len() as int) =~= nodes@);
    strings
}

/// What each of `languages` is, without its grammar.
pub open spec fn language_views(languages: Seq<Language>) -> Seq<LanguageView> {
    languages.map_values(|l: Language| l@)
}

/// A language whose strings are the nodes of the kinds `kinds`.
pub open spec fn generic_language(name: Seq<char>, detections: Seq<Seq<char>>, kinds: Seq<Seq<char>>) -> LanguageView {
    LanguageView { name, detections, strategy: Strategy::Generic { kinds } }
}

/// The languages that are known, in the order in which they are registered:
/// where the patterns of two languages match a file name, the later language
/// takes the file.
pub open spec fn known_languages() -> Seq<LanguageView> {
    seq![
        LanguageView {
            name: "rust"@,
            detections: seq!["*.rs"@],
            strategy: Strategy::Query {
                query: "(string_literal (string_content) @strings)+"@,
                ignore: None,
            },
        },
        generic_language("c"@, seq!["*.[chH]"@, "*.[chH].in"@], seq!["string_content"@]),
        generic_language(
            "cpp"@,
            seq!["*.cpp"@, "*.cc"@, "*.cxx"@, "*.hpp"@, "*.hh"@, "*.hxx"@],
            seq!["string_content"@],
        ),
        generic_language("kotlin"@, seq!["*.kt"@, "*.kts"@], seq!["string_content"@]),
        generic_language("go"@, seq!["*.go"@], seq!["interpreted_string_literal"@]),
        generic_language("python"@, seq!["*.py"@], seq!["string_content"@]),
        generic_language("toml"@, seq!["*.toml"@], seq!["string"@]),
        generic_language("yaml"@, seq!["*.yml"@, "*.yaml"@], seq!["double_quote_scalar"@]),
        generic_language("json"@, seq!["*.json"@], seq!["string_content"@]),
        generic_language("javascript"@, seq!["*.js"@], seq!["string_fragment"@]),
        generic_language("typescript"@, seq!["*.ts"@], seq!["string_fragment"@]),
        LanguageView {
            name: "markdown"@,
            detections: seq!["*.md"@],
            strategy: Strategy::Custom(CustomParser::Markdown),
        },
        LanguageView {
            name: "Cargo.toml"@,
            detections: seq!["Cargo.toml"@],
            strategy: Strategy::Custom(CustomParser::Manifest),
        },
    ]
}

/// The greatest of the first `n` sequence numbers whose pattern matches
/// `filename`.
pub open spec fn last_match(patterns: Seq<Seq<char>>, filename: Seq<char>, n: int) -> Option<int>
    decreases n,
{
    if n <= 0 {
        None
    } else if glob_matches(patterns[n - 1], filename) {
        Some(n - 1)
    } else {
        last_match(patterns, filename, n - 1)
    }
}

/// Those of the first `n` of `detections` that are globs, in order.
pub open spec fn compiling(detections: Seq<Seq<char>>, n: int) -> Seq<Seq<char>>
    decreases n,
{
    if n <= 0 {
        Seq::empty()
    } else if glob_compiles(detections[n - 1]) {
        compiling(detections, n - 1).push(detections[n - 1])
    } else {
        compiling(detections, n - 1)
    }
}

/// The detection patterns of `language` that are globs, in order.
pub open spec fn globs_of(language: LanguageView) -> Seq<Seq<char>> {
    compiling(language.detections, language.detections.len() as int)
}

/// The detection patterns of the first `n` of `languages` that are globs,
/// language after language.
pub open spec fn patterns_of(languages: Seq<LanguageView>, n: int) -> Seq<Seq<char>>
    decreases n,
{
    if n <= 0 {
        Seq::empty()
    } else {
        patterns_of(languages, n - 1) + globs_of(languages[n - 1])
    }
}

/// For each pattern of `patterns_of`, the place of its language.
pub open spec fn owners_of(languages: Seq<LanguageView>, n: int) -> Seq<usize>
    decreases n,
{
    if n <= 0 {
        Seq::empty()
    } else {
        owners_of(languages, n - 1) + Seq::new(
            globs_of(languages[n - 1]).len(),
            |k: int| (n - 1) as usize,
        )
    }
}

/// The patterns and owners of the first languages depend on these languages
/// alone.
proof fn lemma_patterns_of_first(a: Seq<LanguageView>, b: Seq<LanguageView>, n: int)
    requires
        0 <= n <= a.len(),
        n <= b.len(),
        forall|k: int| 0 <= k < n ==> a[k] == b[k],
    ensures
        patterns_of(a, n) == patterns_of(b, n),
        owners_of(a, n) == owners_of(b, n),
    decreases n,
{
    if n > 0 {
        lemma_patterns_of_first(a, b, n - 1);
    }
}

/// The languages that files can be written in, with the patterns that tell the
/// language of a file by its name.
pub struct Mapping {
    glob_set: GlobSet,
    glob_to_lang: Vec<usize>,
    languages: Vec<Language>,
}

impl Mapping {
    /// The patterns that are registered, in the order in which they were.
    pub closed spec fn patterns(&self) -> Seq<Seq<char>> {
        set_patterns(self.glob_set)
    }

    /// For each registered pattern, the place of its language in
    /// `languages`.
    pub closed spec fn owners(&self) -> Seq<usize> {
        self.glob_to_lang@
    }

    /// The languages, in the order in which they were registered.
    pub closed spec fn languages(&self) -> Seq<Language> {
        self.languages@
    }

    /// Every registered pattern is a detection pattern of its language, and
    /// the patterns of a language that was registered later come later.
    pub open spec fn wf(&self) -> bool {
        &&& self.patterns().len() <= self.owners().len()
        &&& Self::registered(self.patterns(), self.owners(), self.languages())
    }

    /// Whether each of `owners` is the place, in `languages`, of a language of
    /// which the pattern at the same place in `patterns` is a detection
    /// pattern, and the owners come in ascending order.
    pub open spec fn registered(patterns: Seq<Seq<char>>, owners: Seq<usize>, languages: Seq<Language>) -> bool {
        &&& forall|k: int| 0 <= k < owners.len() ==> (#[trigger] owners[k]) < languages.len()
        &&& forall|k: int|
            0 <= k < patterns.len() && k < owners.len() ==> languages[owners[k] as int]@.detections.contains(
                #[trigger] patterns[k],
            )
        &&& forall|k: int, l: int| 0 <= k <= l < owners.len() ==> owners[k] <= owners[l]
    }

    /// The language that `filename` is resolved to: the one of the last
    /// registered pattern that matches it.
    pub open spec fn resolve(&self, filename: Seq<char>) -> Option<Language> {
        match last_match(self.patterns(), filename, self.patterns().len() as int) {
            Some(k) => Some(self.languages()[self.owners()[k] as int]),
            None => None,
        }
    }

    /// Registers every detection pattern of `language` that is a glob, and
    /// the language itself.
    fn register(
        builder: &mut globset::GlobSetBuilder,
        glob_to_lang: &mut Vec<usize>,
        languages: &mut Vec<Language>,
        language: Language,
    )
        requires
            builder_patterns(*old(builder)).len() == old(glob_to_lang).len(),
            Self::registered(builder_patterns(*old(builder)), old(glob_to_lang)@, old(languages)@),
            builder_patterns(*old(builder)) == patterns_of(
                language_views(old(languages)@),
                old(languages)@.len() as int,
            ),
            old(glob_to_lang)@ == owners_of(
                language_views(old(languages)@),
                old(languages)@.len() as int,
            ),
        ensures
            builder_patterns(*final(builder)).len() == final(glob_to_lang).len(),
            final(languages)@ == old(languages)@.push(language),
            Self::registered(
                builder_patterns(*final(builder)),
                final(glob_to_lang)@,
                final(languages)@,
            ),
            builder_patterns(*final(builder)) == patterns_of(
                language_views(final(languages)@),
                final(languages)@.len() as int,
            ),
            final(glob_to_lang)@ == owners_of(
                language_views(final(languages)@),
                final(languages)@.len() as int,
            ),
    {
        let index = languages.len();
        let detections = language.detections();
        let ghost before = glob_to_lang@;
        let ghost known = languages@;
        let ghost registered = builder_patterns(*builder);
        let mut i: usize = 0;
        while i < detections.len()
            invariant
                i <= detections.len(),
                index == known.len(),
                languages@ == known,
                words_of(detections@) == language@.detections,
                builder_patterns(*builder).len() == glob_to_lang.len(),
                before.len() <= glob_to_lang.len(),
                forall|k: int| 0 <= k < before.len() ==> glob_to_lang[k] == before[k],
                forall|k: int|
                    0 <= k < before.len() ==> builder_patterns(*builder)[k] == registered[k],
                forall|k: int| before.len() <= k < glob_to_lang.len() ==> glob_to_lang[k] == index,
                forall|k: int|
                    before.len() <= k < glob_to_lang.len() ==> language@.detections.contains(
                        #[trigger] builder_patterns(*builder)[k],
                    ),
                builder_patterns(*builder) == registered + compiling(language@.detections, i as int),
                glob_to_lang@ == before + Seq::new(
                    compiling(language@.detections, i as int).len(),
                    |k: int| index,
                ),
            decreases detections.len() - i,
        {
            assert(words_of(detections@)[i as int] == detections@[i as int]@);
            let ghost patterns = builder_patterns(*builder);
            let ghost owners = glob_to_lang@;
            if add_pattern(builder, detections[i]) {
                glob_to_lang.push(index);
                assert(builder_patterns(*builder) =~= registered + compiling(
                    language@.detections,
                    i + 1,
                ));
                assert(glob_to_lang@ =~= before + Seq::new(
                    compiling(language@.detections, i + 1).len(),
                    |k: int| index,
                ));
            }
            i += 1;
        }
        languages.push(language);
        proof {
            let views = language_views(languages@);
            let n = known.len() as int;
            lemma_patterns_of_first(views, language_views(known), n);
            assert(views[n] == language@);
            assert(builder_patterns(*builder) == patterns_of(views, n + 1));
            assert(glob_to_lang@ =~= owners_of(views, n + 1));
        }
        proof {
            let patterns = builder_patterns(*builder);
            let owners = glob_to_lang@;
            let all = languages@;
            assert(Self::registered(registered, before, known));
            assert forall|k: int| 0 <= k < owners.len() implies (#[trigger] owners[k]) < all.len() by {
                if k < before.len() {
                    assert(before[k] < known.len());
                }
            }
            assert forall|k: int| 0 <= k < patterns.len() && k < owners.len() implies all[owners[k] as int]@.detections.contains(
                #[trigger] patterns[k],
            ) by {
                if k < before.len() {
                    assert(known[before[k] as int]@.detections.contains(registered[k]));
                    assert(all[owners[k] as int] == known[before[k] as int]);
                } else {
                    assert(all[owners[k] as int] == language);
                }
            }
            assert forall|k: int, l: int| 0 <= k <= l < owners.len() implies owners[k]
                <= owners[l] by {
                if l < before.len() {
                    assert(before[k] <= before[l]);
                } else if k < before.len() {
                    assert(before[k] < known.len());
                }
            }
        }
    }

    /// The languages that this crate knows, each with its patterns.
    ///
    /// Every detection pattern that is a glob is registered, language after
    /// language, and owned by its language; where no set can be compiled of
    /// these patterns, none is registered. `Cargo.toml` comes last: for the
    /// manifest of a package it takes precedence over TOML.
    pub fn build() -> (mapping: Self)
        ensures
            mapping.wf(),
            language_views(mapping.languages()) == known_languages(),
            mapping.owners() == owners_of(known_languages(), known_languages().len() as int),
            mapping.patterns() == if set_builds(
                patterns_of(known_languages(), known_languages().len() as int),
            ) {
                patterns_of(known_languages(), known_languages().len() as int)
            } else {
                Seq::empty()
            },
            set_builds(patterns_of(known_languages(), known_languages().len() as int))
                ==> mapping.owners().len() == mapping.patterns().len(),
    {
        let mut languages: Vec<Language> = Vec::new();
        let mut glob_set = new_builder();
        let mut glob_to_lang: Vec<usize> = Vec::new();

        Self::register(&mut glob_set, &mut glob_to_lang, &mut languages, Language::rust());
        Self::register(&mut glob_set, &mut glob_to_lang, &mut languages, Language::c());
        Self::register(&mut glob_set, &mut glob_to_lang, &mut languages, Language::cpp());
        Self::register(&mut glob_set, &mut glob_to_lang, &mut languages, Language::kotlin());
        Self::register(&mut glob_set, &mut glob_to_lang, &mut languages, Language::go());
        Self::register(&mut glob_set, &mut glob_to_lang, &mut languages, Language::python());
        Self::register(&mut glob_set, &mut glob_to_lang, &mut languages, Language::toml());
        Self::register(&mut glob_set, &mut glob_to_lang, &mut languages, Language::yaml());
        Self::register(&mut glob_set, &mut glob_to_lang, &mut languages, Language::json());
        Self::register(&mut glob_set, &mut glob_to_lang, &mut languages, Language::javascript());
        Self::register(&mut glob_set, &mut glob_to_lang, &mut languages, Language::typescript());
        Self::register(&mut glob_set, &mut glob_to_lang, &mut languages, Language::markdown());
        // Takes precedence over the generic toml parser, so it needs to be last in the insertion order
        Self::register(&mut glob_set, &mut glob_to_lang, &mut languages, Language::cargo_toml());

        let glob_set = match build_set(&glob_set) {
            Some(set) => set,
            None => empty_set(),
        };
        assert(language_views(languages@) =~= known_languages());
        Mapping { glob_set, glob_to_lang, languages }
    }

    /// Finds the language to parse based on a file name: when patterns of
    /// several languages match the name, the language that was registered last
    /// wins.
    pub fn find_from_filename(&self, filename: &str) -> (language: Option<&Language>)
        requires
            self.wf(),
        ensures
            language is Some <==> self.resolve(filename@) is Some,
            language matches Some(l) ==> Some(*l) == self.resolve(filename@),
    {
        let matches = set_matches(&self.glob_set, filename);
        proof {
            lemma_last_match(self.patterns(), filename@, matches@, self.patterns().len() as int);
        }
        if matches.len() == 0 {
            return None;
        }
        let i = matches[matches.len() - 1];
        Some(&self.languages[self.glob_to_lang[i]])
    }

    /// The languages, in the order in which they were registered.
    pub fn all(&self) -> (languages: &Vec<Language>)
        ensures
            languages@ == self.languages(),
    {
        &self.languages
    }
}

/// The last of the sequence numbers that a glob set gives is the greatest
/// sequence number whose pattern matches.
proof fn lemma_last_match(patterns: Seq<Seq<char>>, filename: Seq<char>, found: Seq<usize>, n: int)
    requires
        ascending_below(found, patterns.len()),
        forall|i: int|
            0 <= i < patterns.len() ==> (holds_number(found, i) <==> glob_matches(
                #[trigger] patterns[i],
                filename,
            )),
        0 <= n <= patterns.len(),
        forall|k: int| 0 <= k < found.len() ==> (#[trigger] found[k]) < n,
    ensures
        found.len() == 0 <==> last_match(patterns, filename, n) is None,
        found.len() > 0 ==> last_match(patterns, filename, n) == Some(found.last() as int),
    decreases n,
{
    if n > 0 {
        if glob_matches(patterns[n - 1], filename) {
            assert(holds_number(found, n - 1));
            let k = choose|k: int| 0 <= k < found.len() && #[trigger] found[k] == n - 1;
            assert(found[found.len() - 1] < n);
            if k < found.len() - 1 {
                assert(found[k] < found[found.len() - 1]);
            }
        } else {
            assert forall|k: int| 0 <= k < found.len() implies (#[trigger] found[k]) < n - 1 by {
                if found[k] == n - 1 {
                    assert(holds_number(found, n - 1));
                }
            }
            lemma_last_match(patterns, filename, found, n - 1);
        }
    } else {
        if found.len() > 0 {
            assert(found[0] < 0);
        }
    }
}

impl Language {
    /// Finds the language to parse based on a file name
    pub fn from_filename<'m>(mapping: &'m Mapping, filename: &str) -> (language: Option<&'m Self>)
        requires
            mapping.wf(),
        ensures
            language is Some <==> mapping.resolve(filename@) is Some,
            language matches Some(l) ==> Some(*l) == mapping.resolve(filename@),
    {
        mapping.find_from_filename(filename)
    }

    /// Returns the supported languages
    pub fn iter(mapping: &Mapping) -> (languages: &Vec<Self>)
        ensures
            languages@ == mapping.languages(),
    {
        mapping.all()
    }
}

} // verus!
