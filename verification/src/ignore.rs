//! The patterns of files whose changes are ignored.
//!
//! People write `**/dist` or `**/dist/**` for a directory and everything under
//! it, and expect both to mean the same thing. Matching ancestors makes the
//! first one cover what is under the directory; here the second one is made to
//! cover the directory itself.

use globset::{GlobSet, GlobSetBuilder};
use vstd::prelude::*;

use crate::globs::{
    add_pattern, any_matches, build_set, builder_patterns, pattern_refusal, set_compiles,
    set_matches, set_patterns,
};
use crate::text::{chars_of, text_of, texts};

verus! {

/// Whether a pattern is written for the contents of a directory: whether it
/// ends in `/**`.
pub open spec fn is_contents(pattern: Seq<char>) -> bool {
    &&& pattern.len() >= 3
    &&& pattern[pattern.len() - 3] == '/'
    &&& pattern[pattern.len() - 2] == '*'
    &&& pattern[pattern.len() - 1] == '*'
}

/// A pattern for a directory itself: without the `/**` at its end.
pub open spec fn directory_form(pattern: Seq<char>) -> Seq<char>
    decreases pattern.len(),
{
    if is_contents(pattern) {
        directory_form(pattern.take(pattern.len() - 3))
    } else {
        pattern
    }
}

/// The directories whose contents the patterns of a list are written for, as
/// far as they are valid patterns.
pub open spec fn directory_forms(patterns: Seq<Seq<char>>) -> Seq<Seq<char>>
    decreases patterns.len(),
{
    if patterns.len() == 0 {
        Seq::empty()
    } else {
        let before = directory_forms(patterns.drop_last());
        let form = directory_form(patterns.last());
        if is_contents(patterns.last()) && pattern_refusal(form) is None {
            before.push(form)
        } else {
            before
        }
    }
}

/// The directories that count besides the patterns: none, where they do not
/// compile together.
pub open spec fn directory_patterns(patterns: Seq<Seq<char>>) -> Seq<Seq<char>> {
    if set_compiles(directory_forms(patterns)) {
        directory_forms(patterns)
    } else {
        Seq::empty()
    }
}

/// Whether a path counts as one that the patterns of a list are written for: a
/// pattern matches it, or would without the `/**` at its end.
pub open spec fn counts(patterns: Seq<Seq<char>>, path: Seq<char>) -> bool {
    any_matches(patterns, path) || any_matches(directory_patterns(patterns), path)
}

/// A compiled set of patterns.
pub struct IgnoreSet {
    set: GlobSet,
    directories: GlobSet,
}

impl View for IgnoreSet {
    type V = Seq<Seq<char>>;

    /// The patterns of the set.
    closed spec fn view(&self) -> Seq<Seq<char>> {
        set_patterns(self.set)
    }
}

fn written_for_contents(pattern: &[char]) -> (r: bool)
    ensures
        r == is_contents(pattern@),
{
    let n = pattern.len();
    n >= 3 && pattern[n - 3] == '/' && pattern[n - 2] == '*' && pattern[n - 1] == '*'
}

fn directory_of(pattern: &[char]) -> (r: String)
    ensures
        r@ == directory_form(pattern@),
{
    let mut end: usize = pattern.len();
    assert(pattern@.take(end as int) =~= pattern@);
    assert(pattern@.subrange(0, end as int) =~= pattern@);
    while written_for_contents(vstd::slice::slice_subrange(pattern, 0, end))
        invariant
            end <= pattern@.len(),
            directory_form(pattern@) == directory_form(pattern@.subrange(0, end as int)),
        decreases end,
    {
        assert(pattern@.subrange(0, end as int).take(end - 3) =~= pattern@.subrange(0, end - 3));
        end = end - 3;
    }
    text_of(vstd::slice::slice_subrange(pattern, 0, end))
}

impl IgnoreSet {
    #[verifier::type_invariant]
    closed spec fn covers_directories(self) -> bool {
        set_patterns(self.directories) == directory_patterns(set_patterns(self.set))
    }

    /// A set of patterns that are compiled already, given with their texts.
    pub(crate) fn over(set: GlobSet, patterns: &Vec<String>) -> (r: IgnoreSet)
        requires
            set_patterns(set) == texts(patterns@),
        ensures
            r@ == texts(patterns@),
    {
        let mut builder = GlobSetBuilder::new();
        let ghost all = texts(patterns@);
        assert(all.take(0) =~= Seq::<Seq<char>>::empty());
        for i in 0..patterns.len()
            invariant
                all == texts(patterns@),
                builder_patterns(builder) == directory_forms(all.take(i as int)),
        {
            let pattern = chars_of(patterns[i].as_str());
            proof {
                assert(all.take(i + 1).drop_last() =~= all.take(i as int));
                assert(all.take(i + 1).last() == pattern@);
            }
            if written_for_contents(pattern.as_slice()) {
                // A refusal costs only the directory itself.
                let _ = add_pattern(&mut builder, directory_of(pattern.as_slice()).as_str());
            }
        }
        assert(all.take(patterns.len() as int) =~= all);
        match build_set(&builder) {
            Some(directories) => IgnoreSet { set, directories },
            None => IgnoreSet { set, directories: GlobSet::empty() },
        }
    }

    /// Whether the set is written for a path.
    pub fn is_match(&self, path: &str) -> (r: bool)
        ensures
            r == counts(self@, path@),
    {
        proof {
            use_type_invariant(self);
        }
        set_matches(&self.set, path) || set_matches(&self.directories, path)
    }
}

/* -------------------------------------------------------------------- laws */

/// What the list of directory forms holds: one for each pattern written for
/// contents whose form is valid, and no other.
pub proof fn lemma_directory_forms(patterns: Seq<Seq<char>>)
    ensures
        forall|i: int|
            0 <= i < patterns.len() && is_contents(#[trigger] patterns[i]) && pattern_refusal(
                directory_form(patterns[i]),
            ) is None ==> directory_forms(patterns).contains(directory_form(patterns[i])),
        forall|j: int|
            0 <= j < directory_forms(patterns).len() ==> exists|i: int|
                0 <= i < patterns.len() && is_contents(#[trigger] patterns[i]) && directory_form(
                    patterns[i],
                ) == #[trigger] directory_forms(patterns)[j] && pattern_refusal(
                    directory_form(patterns[i]),
                ) is None,
    decreases patterns.len(),
{
    if patterns.len() > 0 {
        let front = patterns.drop_last();
        lemma_directory_forms(front);
        let before = directory_forms(front);
        let now = directory_forms(patterns);
        let n = patterns.len() - 1;
        assert forall|i: int|
            0 <= i < patterns.len() && is_contents(#[trigger] patterns[i]) && pattern_refusal(
                directory_form(patterns[i]),
            ) is None implies now.contains(directory_form(patterns[i])) by {
            if i < n {
                assert(front[i] == patterns[i]);
                let m = choose|m: int|
                    0 <= m < before.len() && before[m] == directory_form(front[i]);
                assert(now[m] == before[m]);
            } else {
                assert(now[now.len() - 1] == directory_form(patterns[i]));
            }
        }
        assert forall|j: int| 0 <= j < now.len() implies exists|i: int|
            0 <= i < patterns.len() && is_contents(#[trigger] patterns[i]) && directory_form(
                patterns[i],
            ) == #[trigger] now[j] && pattern_refusal(directory_form(patterns[i])) is None by {
            if j < before.len() {
                assert(now[j] == before[j]);
                let i = choose|i: int|
                    0 <= i < front.len() && is_contents(#[trigger] front[i]) && directory_form(
                        front[i],
                    ) == before[j] && pattern_refusal(directory_form(front[i])) is None;
                assert(patterns[i] == front[i]);
            } else {
                assert(is_contents(patterns[n]));
            }
        }
    }
}

/// The pattern for the contents of a directory.
pub open spec fn contents_form(directory: Seq<char>) -> Seq<char> {
    directory + seq!['/', '*', '*']
}

/// The pattern for the contents of a directory leads back to the directory.
pub proof fn lemma_contents_form(directory: Seq<char>)
    requires
        !is_contents(directory),
    ensures
        is_contents(contents_form(directory)),
        directory_form(contents_form(directory)) == directory,
{
    let form = contents_form(directory);
    reveal_with_fuel(directory_form, 2);
    assert(form.take(form.len() - 3) =~= directory);
}

/// A list that holds the contents form of a directory is written for the
/// directory too.
pub proof fn law_the_contents_form_covers_the_directory(
    patterns: Seq<Seq<char>>,
    k: int,
    directory: Seq<char>,
    path: Seq<char>,
)
    requires
        0 <= k < patterns.len(),
        patterns[k] == contents_form(directory),
        !is_contents(directory),
        pattern_refusal(directory) is None,
        set_compiles(directory_forms(patterns)),
        crate::globs::pattern_matches(directory, path),
    ensures
        counts(patterns, path),
{
    lemma_contents_form(directory);
    lemma_directory_forms(patterns);
    assert(is_contents(patterns[k]));
    let forms = directory_forms(patterns);
    let m = choose|m: int| 0 <= m < forms.len() && forms[m] == directory;
    assert(crate::globs::pattern_matches(directory_patterns(patterns)[m], path));
}

/// However often `/**` stands at the end of a pattern, it is written for the
/// contents of the directory before it.
pub proof fn law_the_directory_stands_before_the_contents(directory: Seq<char>, n: nat)
    requires
        directory.len() < 3 || directory.skip(directory.len() - 3) != seq!['/', '*', '*'],
    ensures
        is_contents(directory + contents_marks(n)) == (n > 0),
        directory_form(directory + contents_marks(n)) == directory,
    decreases n,
{
    let pattern = directory + contents_marks(n);
    if n == 0 {
        assert(pattern =~= directory);
        if is_contents(directory) {
            assert(directory.skip(directory.len() - 3) =~= seq!['/', '*', '*']);
        }
    } else {
        law_the_directory_stands_before_the_contents(directory, (n - 1) as nat);
        let before = directory + contents_marks((n - 1) as nat);
        assert(pattern =~= before + seq!['/', '*', '*']);
        assert(pattern.take(pattern.len() - 3) =~= before);
    }
}

/// As many `/**` as there are said to be.
pub open spec fn contents_marks(n: nat) -> Seq<char>
    decreases n,
{
    if n == 0 {
        Seq::empty()
    } else {
        contents_marks((n - 1) as nat) + seq!['/', '*', '*']
    }
}

} // verus!
