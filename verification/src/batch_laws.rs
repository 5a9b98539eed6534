//! What a batch of changes holds, and what is announced of it.

use vstd::prelude::*;
use vstd::utf8::encode_utf8;

use crate::globs::{any_matches, pattern_matches};
use crate::handler_laws::all_names;
use crate::ignore::{counts, directory_form, directory_forms, is_contents, lemma_directory_forms};
use crate::listing::bytes_before;
use crate::mount_laws::{law_joining_adds_all_names, path_of};
use crate::path::{ancestors, components, join_path, relative_to, within};
use crate::path_laws::{is_name, law_the_rest_has_the_other_components};
use crate::reload::ReloadModel;
use crate::reload_laws::{
    law_a_change_does_what_its_extension_says, leads_to_a_name, reads_as_image, reads_as_stylesheet,
};
use crate::text::join;
use crate::watch::{
    collected, component_before, components_before, ignored, instruction_for, instructions, noted,
    path_before, planned, served_at,
};

verus! {

/* ------------------------------------------------------------------- ignoring */

/// Whatever a pattern matches is ignored with all that is below it, be the
/// pattern written for the path as it stands or as seen from the root.
pub proof fn law_what_a_pattern_matches_is_ignored(
    patterns: Seq<Seq<char>>,
    k: int,
    path: Seq<char>,
    root: Seq<char>,
    above: Seq<char>,
)
    requires
        0 <= k < patterns.len(),
        pattern_matches(patterns[k], above),
        ancestors(path).contains(above) || within(path, root) && ancestors(
            relative_to(path, root)->0,
        ).contains(above),
    ensures
        ignored(patterns, path, root),
{
    assert(any_matches(patterns, above));
    assert(counts(patterns, above));
    if ancestors(path).contains(above) {
        let m = choose|m: int| 0 <= m < ancestors(path).len() && ancestors(path)[m] == above;
        assert(counts(patterns, ancestors(path)[m]));
    } else {
        let rest = relative_to(path, root)->0;
        let m = choose|m: int| 0 <= m < ancestors(rest).len() && ancestors(rest)[m] == above;
        assert(counts(patterns, ancestors(rest)[m]));
    }
}

/// Whether the first `n` characters of a pattern are the pattern or what stands
/// before a `/**` in it.
pub open spec fn names_a_directory(pattern: Seq<char>, n: int) -> bool {
    ||| n == pattern.len()
    ||| 0 <= n && n + 3 <= pattern.len() && pattern[n] == '/' && pattern[n + 1] == '*'
        && pattern[n + 2] == '*'
}

/// Whether no pattern of a list matches a path, whole or without a `/**`.
pub open spec fn is_unmatched(patterns: Seq<Seq<char>>, path: Seq<char>) -> bool {
    forall|k: int, n: int|
        0 <= k < patterns.len() && #[trigger] names_a_directory(patterns[k], n)
            ==> !pattern_matches(patterns[k].take(n), path)
}

proof fn lemma_directory_form_is_cut(pattern: Seq<char>, whole: Seq<char>)
    requires
        pattern.is_prefix_of(whole),
        names_a_directory(whole, pattern.len() as int),
    ensures
        directory_form(pattern).is_prefix_of(whole),
        names_a_directory(whole, directory_form(pattern).len() as int),
        directory_form(pattern) == whole.take(directory_form(pattern).len() as int),
    decreases pattern.len(),
{
    if is_contents(pattern) {
        let n = pattern.len() - 3;
        let front = pattern.take(n);
        assert(forall|i: int| 0 <= i < pattern.len() ==> pattern[i] == whole[i]);
        lemma_directory_form_is_cut(front, whole);
    } else {
        assert(pattern =~= whole.take(pattern.len() as int));
    }
}

proof fn lemma_unmatched(patterns: Seq<Seq<char>>, path: Seq<char>)
    requires
        is_unmatched(patterns, path),
    ensures
        !counts(patterns, path),
{
    if any_matches(patterns, path) {
        let k = choose|k: int| 0 <= k < patterns.len() && pattern_matches(
            #[trigger] patterns[k],
            path,
        );
        let n = patterns[k].len() as int;
        assert(names_a_directory(patterns[k], n));
        assert(patterns[k].take(n) =~= patterns[k]);
    }
    let forms = directory_forms(patterns);
    if any_matches(forms, path) {
        lemma_directory_forms(patterns);
        let j = choose|j: int| 0 <= j < forms.len() && pattern_matches(#[trigger] forms[j], path);
        let i = choose|i: int|
            0 <= i < patterns.len() && is_contents(#[trigger] patterns[i]) && directory_form(
                patterns[i],
            ) == forms[j];
        let whole = patterns[i];
        lemma_directory_form_is_cut(whole, whole);
        assert(names_a_directory(patterns[i], forms[j].len() as int));
    }
}

/// Nothing else is ignored: a path stays where no pattern matches it or anything
/// above it, as it stands or as seen from the root.
pub proof fn law_only_what_is_matched_is_ignored(
    patterns: Seq<Seq<char>>,
    path: Seq<char>,
    root: Seq<char>,
)
    requires
        forall|k: int|
            0 <= k < ancestors(path).len() ==> is_unmatched(
                patterns,
                #[trigger] ancestors(path)[k],
            ),
        within(path, root) ==> forall|k: int|
            0 <= k < ancestors(relative_to(path, root)->0).len() ==> is_unmatched(
                patterns,
                #[trigger] ancestors(relative_to(path, root)->0)[k],
            ),
    ensures
        !ignored(patterns, path, root),
{
    assert forall|k: int| 0 <= k < ancestors(path).len() implies !counts(
        patterns,
        #[trigger] ancestors(path)[k],
    ) by {
        lemma_unmatched(patterns, ancestors(path)[k]);
    }
    if let Some(rest) = relative_to(path, root) {
        assert forall|k: int| 0 <= k < ancestors(rest).len() implies !counts(
            patterns,
            #[trigger] ancestors(rest)[k],
        ) by {
            lemma_unmatched(patterns, ancestors(rest)[k]);
        }
    }
}

/* ------------------------------------------------------------------- batches */

/// Whether a list holds a path, in whatever spelling.
pub open spec fn holds_path(list: Seq<Seq<char>>, path: Seq<char>) -> bool {
    exists|k: int| 0 <= k < list.len() && components(#[trigger] list[k]) == components(path)
}

proof fn lemma_noted_keeps(list: Seq<Seq<char>>, path: Seq<char>)
    ensures
        holds_path(noted(list, path), path),
        forall|x: Seq<char>| list.contains(x) ==> #[trigger] noted(list, path).contains(x),
        forall|x: Seq<char>| #[trigger]
            noted(list, path).contains(x) ==> x == path || list.contains(x),
    decreases list.len(),
{
    let all = noted(list, path);
    if list.len() == 0 {
        assert(components(all[0]) == components(path));
    } else if components(list.last()) == components(path) {
        assert(components(all[list.len() - 1]) == components(path));
    } else if path_before(path, list.last()) {
        let front = list.drop_last();
        let inner = noted(front, path);
        lemma_noted_keeps(front, path);
        let k = choose|k: int|
            0 <= k < inner.len() && components(#[trigger] inner[k]) == components(path);
        assert(all[k] == inner[k]);
        assert forall|x: Seq<char>| list.contains(x) implies #[trigger] all.contains(x) by {
            let m = choose|m: int| 0 <= m < list.len() && list[m] == x;
            if m < front.len() {
                assert(front[m] == x);
                assert(front.contains(x));
                assert(inner.contains(x));
                let n = choose|n: int| 0 <= n < inner.len() && inner[n] == x;
                assert(all[n] == x);
            } else {
                assert(all[inner.len() as int] == x);
            }
        }
        assert forall|x: Seq<char>| #[trigger] all.contains(x) implies x == path || list.contains(
            x,
        ) by {
            let m = choose|m: int| 0 <= m < all.len() && all[m] == x;
            if m < inner.len() {
                assert(inner[m] == x);
                assert(inner.contains(x));
                if x != path {
                    let n = choose|n: int| 0 <= n < front.len() && front[n] == x;
                    assert(list[n] == x);
                }
            } else {
                assert(list[list.len() - 1] == x);
            }
        }
    } else {
        assert(components(all[list.len() as int]) == components(path));
        assert forall|x: Seq<char>| list.contains(x) implies #[trigger] all.contains(x) by {
            let m = choose|m: int| 0 <= m < list.len() && list[m] == x;
            assert(all[m] == x);
        }
        assert forall|x: Seq<char>| #[trigger] all.contains(x) implies x == path || list.contains(
            x,
        ) by {
            let m = choose|m: int| 0 <= m < all.len() && all[m] == x;
            if m < list.len() {
                assert(list[m] == x);
            }
        }
    }
}

/// A batch keeps what it holds and takes in every path of an event that is not
/// ignored; and nothing else comes into it.
pub proof fn law_batches_hold_what_changed(
    pending: Seq<Seq<char>>,
    paths: Seq<Seq<char>>,
    root: Seq<char>,
    patterns: Seq<Seq<char>>,
)
    ensures
        ({
            let after = collected(pending, paths, root, patterns);
            &&& forall|x: Seq<char>| pending.contains(x) ==> #[trigger] after.contains(x)
            &&& forall|k: int|
                0 <= k < paths.len() && !ignored(patterns, paths[k], root) ==> holds_path(
                    after,
                    #[trigger] paths[k],
                )
            &&& forall|x: Seq<char>| #[trigger]
                after.contains(x) ==> pending.contains(x) || paths.contains(x) && !ignored(
                    patterns,
                    x,
                    root,
                )
        }),
    decreases paths.len(),
{
    let after = collected(pending, paths, root, patterns);
    if paths.len() > 0 {
        let front = paths.drop_last();
        let last = paths[paths.len() - 1];
        let before = collected(pending, front, root, patterns);
        law_batches_hold_what_changed(pending, front, root, patterns);
        lemma_noted_keeps(before, last);
        assert forall|x: Seq<char>| pending.contains(x) implies #[trigger] after.contains(x) by {
            assert(before.contains(x));
        }
        assert forall|k: int|
            0 <= k < paths.len() && !ignored(patterns, paths[k], root) implies holds_path(
            after,
            #[trigger] paths[k],
        ) by {
            if k < front.len() {
                assert(front[k] == paths[k]);
                assert(holds_path(before, front[k]));
                let m = choose|m: int|
                    0 <= m < before.len() && components(#[trigger] before[m]) == components(
                        paths[k],
                    );
                assert(before.contains(before[m]));
                assert(after.contains(before[m]));
                let n = choose|n: int| 0 <= n < after.len() && after[n] == before[m];
                assert(components(after[n]) == components(paths[k]));
            }
        }
        assert forall|x: Seq<char>| #[trigger] after.contains(x) implies pending.contains(x)
            || paths.contains(x) && !ignored(patterns, x, root) by {
            if before.contains(x) {
                if !pending.contains(x) {
                    let m = choose|m: int| 0 <= m < front.len() && front[m] == x;
                    assert(paths[m] == x);
                }
            } else {
                assert(paths[paths.len() - 1] == x);
            }
        }
    }
}

/* --------------------------------------------------------------------- order */

/// The kinds of components in order: the root, the current directory, the way
/// up, and names.
pub open spec fn is_of_kind(c: Seq<char>, kind: int) -> bool {
    ||| kind == 0 && c.len() == 1 && c[0] == '/'
    ||| kind == 1 && c.len() == 1 && c[0] == '.'
    ||| kind == 2 && c.len() == 2 && c[0] == '.' && c[1] == '.'
    ||| kind == 3 && is_name(c)
}

/// A component comes before one of a later kind, and a name before another whose
/// bytes come later.
pub proof fn law_components_are_ordered_by_kind(a: Seq<char>, b: Seq<char>, i: int, j: int)
    requires
        is_of_kind(a, i),
        is_of_kind(b, j),
    ensures
        component_before(a, b) == (i < j || i == 3 && j == 3 && bytes_before(
            encode_utf8(a),
            encode_utf8(b),
        )),
{
    lemma_kind(a, i);
    lemma_kind(b, j);
}

proof fn lemma_kind(c: Seq<char>, kind: int)
    requires
        is_of_kind(c, kind),
    ensures
        crate::watch::component_rank(c) == kind,
{
    if kind == 0 {
        assert(c =~= seq!['/']);
    } else if kind == 1 {
        assert(c =~= seq!['.']);
        assert(seq!['/'][0] == '/');
    } else if kind == 2 {
        assert(c =~= seq!['.', '.']);
    } else {
        assert(c[0] != '/');
        if c == seq!['/'] {
            assert(c[0] == '/');
        }
    }
}

/// Paths are in the order of their components: one comes before another where
/// its components are the first ones of the other, or where they differ first in
/// a component that comes before.
pub proof fn law_paths_are_ordered_by_component(a: Seq<char>, b: Seq<char>, i: int)
    requires
        0 <= i <= components(a).len(),
        i <= components(b).len(),
        components(a).take(i) == components(b).take(i),
    ensures
        i == components(a).len() && i < components(b).len() ==> path_before(a, b),
        i == components(b).len() ==> !path_before(a, b),
        i < components(a).len() && i < components(b).len() && components(a)[i] != components(b)[i]
            ==> path_before(a, b) == component_before(components(a)[i], components(b)[i]),
{
    lemma_first_difference(components(a), components(b), i);
}

proof fn lemma_first_difference(a: Seq<Seq<char>>, b: Seq<Seq<char>>, i: int)
    requires
        0 <= i <= a.len(),
        i <= b.len(),
        a.take(i) == b.take(i),
    ensures
        components_before(a, b) == components_before(a.skip(i), b.skip(i)),
        i < a.len() ==> a.skip(i)[0] == a[i],
        i < b.len() ==> b.skip(i)[0] == b[i],
    decreases i,
{
    if i == 0 {
        assert(a.skip(0) =~= a && b.skip(0) =~= b);
    } else {
        assert(a.take(i)[0] == a[0] && b.take(i)[0] == b[0]);
        assert(a.skip(1).take(i - 1) =~= a.take(i).skip(1));
        assert(b.skip(1).take(i - 1) =~= b.take(i).skip(1));
        lemma_first_difference(a.skip(1), b.skip(1), i - 1);
        assert(a.skip(1).skip(i - 1) =~= a.skip(i));
        assert(b.skip(1).skip(i - 1) =~= b.skip(i));
    }
}

/* -------------------------------------------------------------- announcements */

/// A file below the root is served at the names that lead to it from there, with
/// slashes before each.
pub proof fn law_files_are_served_at_their_names(root: Seq<char>, parts: Seq<Seq<char>>)
    requires
        all_names(parts),
        parts.len() > 0,
    ensures
        served_at(join_path(root, path_of(parts)), root) == Some(seq!['/'] + path_of(parts)),
{
    reveal_strlit("/");
    assert("/"@ =~= seq!['/']);
    let file = join_path(root, path_of(parts));
    law_joining_adds_all_names(root, parts);
    law_the_rest_has_the_other_components(file, root);
    assert(components(file).skip(components(root).len() as int) =~= parts);
}

/// Whatever lies below the root is served at what follows the root in it.
pub proof fn law_paths_are_served_at_what_follows_the_root(path: Seq<char>, root: Seq<char>)
    ensures
        within(path, root) ==> served_at(path, root) == Some(
            seq!['/'] + join(components(path).skip(components(root).len() as int), seq!['/']),
        ),
        !within(path, root) ==> served_at(path, root) is None,
{
    reveal_strlit("/");
    assert("/"@ =~= seq!['/']);
    if within(path, root) {
        law_the_rest_has_the_other_components(path, root);
    }
}

/// The root itself is served at the root.
pub proof fn law_the_root_is_served_at_the_root(root: Seq<char>)
    ensures
        served_at(root, root) == Some(seq!['/']),
{
    reveal_strlit("/");
    law_the_rest_has_the_other_components(root, root);
    let n = components(root).len() as int;
    assert(components(root).skip(n) =~= Seq::<Seq<char>>::empty());
    let rest = relative_to(root, root)->0;
    assert(components(rest) =~= Seq::<Seq<char>>::empty());
    assert(join(components(rest), "/"@) =~= Seq::<char>::empty());
    assert("/"@ + join(components(rest), "/"@) =~= seq!['/']);
}

/// A change to a stylesheet or an image below the root is announced by the path
/// that the browser knows it by, and any other change reloads the page.
pub proof fn law_changes_below_the_root_are_announced_by_path(
    root: Seq<char>,
    above: Seq<Seq<char>>,
    stem: Seq<char>,
    ext: Seq<char>,
)
    requires
        all_names(above),
        stem.len() > 0,
        !ext.contains('.'),
        is_name(stem + seq!['.'] + ext),
    ensures
        ({
            let parts = above.push(stem + seq!['.'] + ext);
            let file = join_path(root, path_of(parts));
            let path = seq!['/'] + path_of(parts);
            &&& reads_as_stylesheet(ext) ==> instruction_for(file, root, false)
                == ReloadModel::Css(path)
            &&& reads_as_image(ext) ==> instruction_for(file, root, false)
                == ReloadModel::Image(path)
            &&& !reads_as_stylesheet(ext) && !reads_as_image(ext) ==> instruction_for(
                file,
                root,
                false,
            ) == ReloadModel::Full
        }),
{
    let name = stem + seq!['.'] + ext;
    let parts = above.push(name);
    law_files_are_served_at_their_names(root, parts);
    let lead = if above.len() == 0 {
        seq!['/']
    } else {
        seq!['/'] + path_of(above) + seq!['/']
    };
    assert(parts.drop_last() =~= above);
    assert(seq!['/'] + path_of(parts) =~= lead + name);
    assert(leads_to_a_name(lead));
    law_a_change_does_what_its_extension_says(lead, stem, ext);
}

/// A change outside the root reloads the page.
pub proof fn law_changes_elsewhere_reload_the_page(
    path: Seq<char>,
    root: Seq<char>,
    full_reload: bool,
)
    requires
        components(path).len() < components(root).len() || components(path).take(
            components(root).len() as int,
        ) != components(root),
    ensures
        instruction_for(path, root, full_reload) == ReloadModel::Full,
{
    if within(path, root) {
        assert(components(path).take(components(root).len() as int) =~= components(root));
    }
}

/// Swaps are sent in the order of the changes: what the first changes of a batch
/// call for comes first.
pub proof fn law_swaps_are_sent_in_order(
    paths: Seq<Seq<char>>,
    root: Seq<char>,
    full_reload: bool,
    k: int,
)
    requires
        0 <= k <= paths.len(),
        forall|i: int|
            0 <= i < paths.len() ==> instruction_for(#[trigger] paths[i], root, full_reload)
                != ReloadModel::Full,
    ensures
        planned(paths.take(k), root, full_reload).is_prefix_of(planned(paths, root, full_reload)),
{
    assert forall|i: int| 0 <= i < k implies instruction_for(
        #[trigger] paths.take(k)[i],
        root,
        full_reload,
    ) != ReloadModel::Full by {
        assert(paths.take(k)[i] == paths[i]);
    }
    lemma_instructions_grow(paths, root, full_reload, k);
}

proof fn lemma_instructions_grow(
    paths: Seq<Seq<char>>,
    root: Seq<char>,
    full_reload: bool,
    k: int,
)
    requires
        0 <= k <= paths.len(),
    ensures
        instructions(paths.take(k), root, full_reload).is_prefix_of(
            instructions(paths, root, full_reload),
        ),
    decreases paths.len(),
{
    if k == paths.len() {
        assert(paths.take(k) =~= paths);
    } else {
        let front = paths.drop_last();
        lemma_instructions_grow(front, root, full_reload, k);
        assert(front.take(k) =~= paths.take(k));
        let a = instructions(paths.take(k), root, full_reload);
        let b = instructions(front, root, full_reload);
        let c = instructions(paths, root, full_reload);
        assert(b =~= c.subrange(0, b.len() as int));
        assert(a =~= c.subrange(0, a.len() as int));
    }
}

} // verus!
