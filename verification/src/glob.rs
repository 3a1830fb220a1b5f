//! Sets of glob patterns that file names are matched against.
use globset::{GlobBuilder, GlobSet, GlobSetBuilder};
use vstd::prelude::*;

verus! {

/// `globset::GlobSet`: a set of compiled glob patterns. Nothing is known of
/// what it holds but what the names below say.
#[verifier::external_type_specification]
#[verifier::external_body]
pub struct ExGlobSet(GlobSet);

/// `globset::GlobSetBuilder`: the patterns of a set that is not yet compiled.
#[verifier::external_type_specification]
#[verifier::external_body]
pub struct ExGlobSetBuilder(GlobSetBuilder);

/// The patterns that were added to `builder`, in the order in which they were
/// added.
pub uninterp spec fn builder_patterns(builder: GlobSetBuilder) -> Seq<Seq<char>>;

/// The patterns of `set`, each at its sequence number.
pub uninterp spec fn set_patterns(set: GlobSet) -> Seq<Seq<char>>;

/// Whether the glob `pattern`, in which `*` and `?` match no path separator,
/// matches `path`. What counts as a path separator, and whether a backslash
/// escapes, is as on the machine that the crate is built for.
pub uninterp spec fn glob_matches(pattern: Seq<char>, path: Seq<char>) -> bool;

/// Whether `pattern` is a glob: `GlobBuilder::build` accepts it.
pub uninterp spec fn glob_compiles(pattern: Seq<char>) -> bool;

/// Whether a set can be compiled of `patterns`: `GlobSetBuilder::build`
/// accepts them.
pub uninterp spec fn set_builds(patterns: Seq<Seq<char>>) -> bool;

/// Whether `found` holds the sequence number `i`.
pub open spec fn holds_number(found: Seq<usize>, i: int) -> bool {
    exists|k: int| 0 <= k < found.len() && #[trigger] found[k] == i
}

/// Whether `found` are sequence numbers below `n`, in ascending order.
pub open spec fn ascending_below(found: Seq<usize>, n: nat) -> bool {
    &&& forall|k: int, l: int| 0 <= k < l < found.len() ==> found[k] < found[l]
    &&& forall|k: int| 0 <= k < found.len() ==> (#[trigger] found[k]) < n
}

/// `GlobSetBuilder::new`: a builder that holds no pattern.
#[verifier::external_body]
pub(crate) fn new_builder() -> (builder: GlobSetBuilder)
    ensures
        builder_patterns(builder) == Seq::<Seq<char>>::empty(),
{
    GlobSetBuilder::new()
}

/// `GlobBuilder::build` and `GlobSetBuilder::add`: compiles `pattern`, with a
/// literal separator, and adds it to the builder. A pattern that is no glob is
/// not added.
#[verifier::external_body]
pub(crate) fn add_pattern(builder: &mut GlobSetBuilder, pattern: &str) -> (added: bool)
    ensures
        added == glob_compiles(pattern@),
        added ==> builder_patterns(*final(builder)) == builder_patterns(*old(builder)).push(
            pattern@,
        ),
        !added ==> builder_patterns(*final(builder)) == builder_patterns(*old(builder)),
{
    match GlobBuilder::new(pattern).literal_separator(true).build() {
        Ok(glob) => {
            builder.add(glob);
            true
        },
        Err(_) => false,
    }
}

/// `GlobSetBuilder::build`: the set of the patterns added so far, or nothing
/// where the set cannot be compiled.
#[verifier::external_body]
pub(crate) fn build_set(builder: &GlobSetBuilder) -> (set: Option<GlobSet>)
    ensures
        set is Some <==> set_builds(builder_patterns(*builder)),
        set matches Some(s) ==> set_patterns(s) == builder_patterns(*builder),
{
    builder.build().ok()
}

/// `GlobSet::empty`: a set without patterns, which matches nothing.
#[verifier::external_body]
pub(crate) fn empty_set() -> (set: GlobSet)
    ensures
        set_patterns(set) == Seq::<Seq<char>>::empty(),
{
    GlobSet::empty()
}

/// `GlobSet::matches`: the sequence number of every pattern of the set that
/// matches `path`, in ascending order.
#[verifier::external_body]
pub(crate) fn set_matches(set: &GlobSet, path: &str) -> (found: Vec<usize>)
    ensures
        ascending_below(found@, set_patterns(*set).len()),
        forall|i: int|
            0 <= i < set_patterns(*set).len() ==> (holds_number(found@, i) <==> glob_matches(
                #[trigger] set_patterns(*set)[i],
                path@,
            )),
{
    set.matches(path)
}

} // verus!
