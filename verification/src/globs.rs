//! Glob patterns, as the `globset` crate reads and matches them.

use globset::{Glob, GlobSet, GlobSetBuilder};
use vstd::prelude::*;

verus! {

/// A compiled set of glob patterns.
#[verifier::external_type_specification]
#[verifier::external_body]
pub struct ExGlobSet(globset::GlobSet);

/// A set of glob patterns on its way to being compiled.
#[verifier::external_type_specification]
#[verifier::external_body]
pub struct ExGlobSetBuilder(globset::GlobSetBuilder);

/// The patterns that a compiled set holds, in the order they were added. A
/// pattern is read with the crate's default options.
pub uninterp spec fn set_patterns(set: GlobSet) -> Seq<Seq<char>>;

/// The patterns that were added to a builder, in order.
pub uninterp spec fn builder_patterns(builder: GlobSetBuilder) -> Seq<Seq<char>>;

/// Why a text is refused as a glob pattern, if it is.
pub uninterp spec fn pattern_refusal(pattern: Seq<char>) -> Option<Seq<char>>;

/// Whether patterns that are valid one by one compile into a set.
pub uninterp spec fn set_compiles(patterns: Seq<Seq<char>>) -> bool;

/// Whether a pattern, read with the crate's default options, matches a path.
pub uninterp spec fn pattern_matches(pattern: Seq<char>, path: Seq<char>) -> bool;

/// `GlobSetBuilder::new`: a builder that holds no patterns.
pub assume_specification[ GlobSetBuilder::new ]() -> (r: GlobSetBuilder)
    ensures
        builder_patterns(r) == Seq::<Seq<char>>::empty(),
;

/// `GlobSet::empty`: a set that holds no patterns.
pub assume_specification[ GlobSet::empty ]() -> (r: GlobSet)
    ensures
        set_patterns(r) == Seq::<Seq<char>>::empty(),
;

/// `Glob::new`, then `GlobSetBuilder::add` of what it gives: a valid pattern
/// is put behind those already added; of any other the error's text comes
/// back, and the builder stays as it was.
#[verifier::external_body]
pub(crate) fn add_pattern(builder: &mut GlobSetBuilder, pattern: &str) -> (r: Result<(), String>)
    ensures
        match r {
            Ok(_) => pattern_refusal(pattern@) is None && builder_patterns(*final(builder))
                == builder_patterns(*old(builder)).push(pattern@),
            Err(text) => pattern_refusal(pattern@) == Some(text@) && *final(builder) == *old(
                builder,
            ),
        },
{
    builder.add(Glob::new(pattern).map_err(|err| err.to_string())?);
    Ok(())
}

/// `GlobSetBuilder::build`: the set of the patterns added, or nothing where
/// they do not compile together.
#[verifier::external_body]
pub(crate) fn build_set(builder: &GlobSetBuilder) -> (r: Option<GlobSet>)
    ensures
        match r {
            Some(set) => set_compiles(builder_patterns(*builder)) && set_patterns(set)
                == builder_patterns(*builder),
            None => !set_compiles(builder_patterns(*builder)),
        },
{
    builder.build().ok()
}

/// Whether one of the patterns of a list matches a path.
pub open spec fn any_matches(patterns: Seq<Seq<char>>, path: Seq<char>) -> bool {
    exists|k: int| 0 <= k < patterns.len() && pattern_matches(#[trigger] patterns[k], path)
}

/// `GlobSet::is_match`: whether any pattern of the set matches the path.
#[verifier::external_body]
pub(crate) fn set_matches(set: &GlobSet, path: &str) -> (r: bool)
    ensures
        r == (exists|k: int|
            0 <= k < set_patterns(*set).len() && pattern_matches(
                #[trigger] set_patterns(*set)[k],
                path@,
            )),
{
    set.is_match(path)
}

} // verus!
