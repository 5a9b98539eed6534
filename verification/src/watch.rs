//! Filesystem watching.
//!
//! Editor save events are deliberately not the trigger for reloads. Watching
//! the filesystem instead means a Sass build, a bundler, a `git checkout` or an
//! edit made in another program all reload the page too, and it keeps us from
//! firing twice for a single save.

use vstd::prelude::*;
use vstd::utf8::encode_utf8;

use crate::config::Config;
use crate::globs::{any_matches, pattern_matches, pattern_refusal, set_compiles};
use crate::ignore::{
    contents_form, counts, directory_form, directory_forms, directory_patterns, is_contents,
    law_the_contents_form_covers_the_directory, lemma_contents_form, lemma_directory_forms,
    IgnoreSet,
};
use crate::listing::{bytes_before, comes_before};
use crate::path::{ancestors, ancestors_of, components, components_of, relative_to, strip_base};
use crate::path_laws::{law_ancestors_nest, law_relative_ancestors_nest};
use crate::reload::{classified, classify, Reload, ReloadModel};
use crate::text::{chars_of, join, joined, owned, same_texts, texts};

verus! {

/* ----------------------------------------------------------------- ignoring */

/// Whether patterns are written for a path or for anything above it.
pub open spec fn matched_with_ancestors(patterns: Seq<Seq<char>>, path: Seq<char>) -> bool {
    exists|k: int|
        0 <= k < ancestors(path).len() && counts(patterns, #[trigger] ancestors(path)[k])
}

/// Whether a path is ignored, as it stands or as seen from the root.
pub open spec fn ignored(patterns: Seq<Seq<char>>, path: Seq<char>, root: Seq<char>) -> bool {
    ||| matched_with_ancestors(patterns, path)
    ||| relative_to(path, root) matches Some(rest) && matched_with_ancestors(patterns, rest)
}

/// Whether patterns are written for a path or for anything above it.
pub fn matches_with_ancestors(path: &str, ignore: &IgnoreSet) -> (r: bool)
    ensures
        r == matched_with_ancestors(ignore@, path@),
{
    let above = ancestors_of(path);
    for i in 0..above.len()
        invariant
            texts(above@) == ancestors(path@),
            forall|k: int|
                0 <= k < i ==> !counts(ignore@, #[trigger] ancestors(path@)[k]),
    {
        assert(above@[i as int]@ == ancestors(path@)[i as int]);
        if ignore.is_match(above[i].as_str()) {
            assert(counts(ignore@, ancestors(path@)[i as int]));
            return true;
        }
    }
    false
}

/// Matches ignore globs against both the workspace-relative and absolute paths.
///
/// Users write patterns like `**/*.log` expecting them to match relative to the
/// project, but also occasionally write absolute paths, so both are tried.
///
/// Ancestors are tested as well, so that ignoring a directory ignores its whole
/// subtree. Without this, a pattern like `**/dist` would filter out the
/// directory's own creation event but nothing inside it, and the reverse
/// pattern `**/dist/**` would filter the contents but not the directory. People
/// write one or the other and reasonably expect both to mean the same thing.
pub fn is_ignored(path: &str, root: &str, ignore: &IgnoreSet) -> (r: bool)
    ensures
        r == ignored(ignore@, path@, root@),
{
    if matches_with_ancestors(path, ignore) {
        return true;
    }
    match strip_base(path, root) {
        Some(relative) => matches_with_ancestors(relative.as_str(), ignore),
        None => false,
    }
}

/// Ignoring a directory ignores everything under it.
pub proof fn law_ignoring_a_directory_ignores_its_subtree(
    patterns: Seq<Seq<char>>,
    directory: Seq<char>,
    path: Seq<char>,
    root: Seq<char>,
)
    requires
        ancestors(path).contains(directory),
        ignored(patterns, directory, root),
    ensures
        ignored(patterns, path, root),
{
    if matched_with_ancestors(patterns, directory) {
        lemma_match_carries_over(patterns, directory, path);
    } else {
        law_relative_ancestors_nest(path, directory, root);
        let above = relative_to(directory, root)->0;
        if directory != path {
            assert(above.len() > 0);
            lemma_match_carries_over(patterns, above, relative_to(path, root)->0);
        }
    }
}

proof fn lemma_match_carries_over(patterns: Seq<Seq<char>>, above: Seq<char>, path: Seq<char>)
    requires
        ancestors(path).contains(above),
        matched_with_ancestors(patterns, above),
    ensures
        matched_with_ancestors(patterns, path),
{
    let k = choose|k: int|
        0 <= k < ancestors(above).len() && counts(patterns, #[trigger] ancestors(above)[k]);
    let hit = ancestors(above)[k];
    law_ancestors_nest(path, above, hit);
    let m = choose|m: int| 0 <= m < ancestors(path).len() && ancestors(path)[m] == hit;
    assert(counts(patterns, ancestors(path)[m]));
}

/// The two spellings of a directory agree: a list that holds `d` ignores what
/// the same list with `d/**` in its place ignores, and nothing else. That is
/// so of every `d` whose contents form matches only under what `d` matches.
pub proof fn law_both_spellings_of_a_directory_agree(
    before: Seq<Seq<char>>,
    directory: Seq<char>,
    after: Seq<Seq<char>>,
    path: Seq<char>,
    root: Seq<char>,
)
    requires
        !is_contents(directory),
        pattern_refusal(directory) is None,
        set_compiles(directory_forms(before.push(directory) + after)),
        set_compiles(directory_forms(before.push(contents_form(directory)) + after)),
        matches_only_below(directory),
    ensures
        ignored(before.push(directory) + after, path, root) == ignored(
            before.push(contents_form(directory)) + after,
            path,
            root,
        ),
{
    lemma_spellings(before, directory, after, path);
    if let Some(rest) = relative_to(path, root) {
        lemma_spellings(before, directory, after, rest);
    }
}

/// Whether the contents form of a pattern matches only paths that lie under
/// one that the pattern matches.
pub open spec fn matches_only_below(directory: Seq<char>) -> bool {
    forall|path: Seq<char>| #[trigger]
        pattern_matches(contents_form(directory), path) ==> exists|k: int|
            0 <= k < ancestors(path).len() && pattern_matches(
                directory,
                #[trigger] ancestors(path)[k],
            )
}

proof fn lemma_spellings(
    before: Seq<Seq<char>>,
    directory: Seq<char>,
    after: Seq<Seq<char>>,
    path: Seq<char>,
)
    requires
        !is_contents(directory),
        pattern_refusal(directory) is None,
        set_compiles(directory_forms(before.push(directory) + after)),
        set_compiles(directory_forms(before.push(contents_form(directory)) + after)),
        matches_only_below(directory),
    ensures
        matched_with_ancestors(before.push(directory) + after, path) == matched_with_ancestors(
            before.push(contents_form(directory)) + after,
            path,
        ),
{
    let bare = before.push(directory) + after;
    let full = before.push(contents_form(directory)) + after;
    let n = before.len() as int;
    lemma_contents_form(directory);
    lemma_directory_forms(bare);
    lemma_directory_forms(full);
    assert(bare[n] == directory && full[n] == contents_form(directory));
    assert(forall|i: int| 0 <= i < bare.len() && i != n ==> bare[i] == full[i]);
    if matched_with_ancestors(bare, path) {
        let k = choose|k: int|
            0 <= k < ancestors(path).len() && counts(bare, #[trigger] ancestors(path)[k]);
        let a = ancestors(path)[k];
        if any_matches(bare, a) {
            let i = choose|i: int| 0 <= i < bare.len() && pattern_matches(#[trigger] bare[i], a);
            if i == n {
                law_the_contents_form_covers_the_directory(full, n, directory, a);
            } else {
                assert(pattern_matches(full[i], a));
            }
        } else {
            let forms = directory_forms(bare);
            let j = choose|j: int| 0 <= j < forms.len() && pattern_matches(#[trigger] forms[j], a);
            let i = choose|i: int|
                0 <= i < bare.len() && is_contents(#[trigger] bare[i]) && directory_form(bare[i])
                    == forms[j] && pattern_refusal(directory_form(bare[i])) is None;
            assert(is_contents(full[i]));
            let m = choose|m: int|
                0 <= m < directory_forms(full).len() && directory_forms(full)[m] == forms[j];
            assert(pattern_matches(directory_patterns(full)[m], a));
        }
        assert(counts(full, ancestors(path)[k]));
    }
    if matched_with_ancestors(full, path) {
        let k = choose|k: int|
            0 <= k < ancestors(path).len() && counts(full, #[trigger] ancestors(path)[k]);
        let a = ancestors(path)[k];
        if any_matches(full, a) {
            let i = choose|i: int| 0 <= i < full.len() && pattern_matches(#[trigger] full[i], a);
            if i == n {
                let m = choose|m: int|
                    0 <= m < ancestors(a).len() && pattern_matches(
                        directory,
                        #[trigger] ancestors(a)[m],
                    );
                let hit = ancestors(a)[m];
                assert(pattern_matches(bare[n], hit));
                law_ancestors_nest(path, a, hit);
                let l = choose|l: int| 0 <= l < ancestors(path).len() && ancestors(path)[l] == hit;
                assert(counts(bare, ancestors(path)[l]));
            } else {
                assert(pattern_matches(bare[i], a));
                assert(counts(bare, ancestors(path)[k]));
            }
        } else {
            let forms = directory_forms(full);
            let j = choose|j: int| 0 <= j < forms.len() && pattern_matches(#[trigger] forms[j], a);
            let i = choose|i: int|
                0 <= i < full.len() && is_contents(#[trigger] full[i]) && directory_form(full[i])
                    == forms[j] && pattern_refusal(directory_form(full[i])) is None;
            if i == n {
                assert(pattern_matches(bare[n], a));
            } else {
                assert(is_contents(bare[i]));
                let m = choose|m: int|
                    0 <= m < directory_forms(bare).len() && directory_forms(bare)[m] == forms[j];
                assert(pattern_matches(directory_patterns(bare)[m], a));
            }
            assert(counts(bare, ancestors(path)[k]));
        }
    }
}

/* ------------------------------------------------------------------ pending */

/// The rank of a component among others: the root, `.` and `..` come before
/// names.
pub open spec fn component_rank(c: Seq<char>) -> int {
    if c == seq!['/'] {
        0
    } else if c == seq!['.'] {
        1
    } else if c == seq!['.', '.'] {
        2
    } else {
        3
    }
}

/// Whether a component comes before another: names by their bytes.
pub open spec fn component_before(a: Seq<char>, b: Seq<char>) -> bool {
    ||| component_rank(a) < component_rank(b)
    ||| component_rank(a) == 3 && component_rank(b) == 3 && bytes_before(
        encode_utf8(a),
        encode_utf8(b),
    )
}

/// Whether a list of components comes before another.
pub open spec fn components_before(a: Seq<Seq<char>>, b: Seq<Seq<char>>) -> bool
    decreases a.len(),
{
    if b.len() == 0 {
        false
    } else if a.len() == 0 {
        true
    } else if a[0] != b[0] {
        component_before(a[0], b[0])
    } else {
        components_before(a.skip(1), b.skip(1))
    }
}

/// Whether a path comes before another.
pub open spec fn path_before(a: Seq<char>, b: Seq<char>) -> bool {
    components_before(components(a), components(b))
}

/// Paths in order with one more; a path that is there already, in whatever
/// spelling, is not noted again.
pub open spec fn noted(list: Seq<Seq<char>>, path: Seq<char>) -> Seq<Seq<char>>
    decreases list.len(),
{
    if list.len() == 0 {
        seq![path]
    } else if components(list.last()) == components(path) {
        list
    } else if path_before(path, list.last()) {
        noted(list.drop_last(), path).push(list.last())
    } else {
        list.push(path)
    }
}

fn rank_of(c: &str) -> (r: u8)
    ensures
        r == component_rank(c@),
{
    let s = chars_of(c);
    proof {
        if s@.len() == 1 && s@[0] == '/' {
            assert(c@ =~= seq!['/']);
        }
        if s@.len() == 1 && s@[0] == '.' {
            assert(c@ =~= seq!['.']);
            assert(seq!['/'][0] == '/');
        }
        if s@.len() == 2 && s@[0] == '.' && s@[1] == '.' {
            assert(c@ =~= seq!['.', '.']);
        }
        if c@ == seq!['/'] {
            assert(c@[0] == '/');
        }
        if c@ == seq!['.'] {
            assert(c@[0] == '.');
        }
        if c@ == seq!['.', '.'] {
            assert(c@[0] == '.' && c@[1] == '.');
        }
    }
    if s.len() == 1 && s[0] == '/' {
        0
    } else if s.len() == 1 && s[0] == '.' {
        1
    } else if s.len() == 2 && s[0] == '.' && s[1] == '.' {
        2
    } else {
        3
    }
}

fn component_is_before(a: &str, b: &str) -> (r: bool)
    ensures
        r == component_before(a@, b@),
{
    let left = rank_of(a);
    let right = rank_of(b);
    left < right || (left == 3 && right == 3 && comes_before(a.as_bytes(), b.as_bytes()))
}

fn is_before(a: &Vec<String>, b: &Vec<String>) -> (r: bool)
    ensures
        r == components_before(texts(a@), texts(b@)),
{
    let mut i: usize = 0;
    assert(texts(a@).skip(0) =~= texts(a@));
    assert(texts(b@).skip(0) =~= texts(b@));
    while i < a.len() && i < b.len() && crate::text::same_text(a[i].as_str(), b[i].as_str())
        invariant
            i <= a@.len(),
            i <= b@.len(),
            components_before(texts(a@), texts(b@)) == components_before(
                texts(a@).skip(i as int),
                texts(b@).skip(i as int),
            ),
        decreases a@.len() - i,
    {
        assert(texts(a@).skip(i as int).skip(1) =~= texts(a@).skip(i + 1));
        assert(texts(b@).skip(i as int).skip(1) =~= texts(b@).skip(i + 1));
        i = i + 1;
    }
    if i == b.len() {
        false
    } else if i == a.len() {
        true
    } else {
        assert(texts(a@).skip(i as int)[0] == a@[i as int]@);
        assert(texts(b@).skip(i as int)[0] == b@[i as int]@);
        component_is_before(a[i].as_str(), b[i].as_str())
    }
}

/// The paths of a batch of changes, in order and without repetition.
pub struct Pending {
    paths: Vec<String>,
}

impl View for Pending {
    type V = Seq<Seq<char>>;

    closed spec fn view(&self) -> Seq<Seq<char>> {
        texts(self.paths@)
    }
}

proof fn lemma_noted_at(list: Seq<Seq<char>>, path: Seq<char>, at: int)
    requires
        0 <= at <= list.len(),
        forall|k: int|
            at <= k < list.len() ==> components(#[trigger] list[k]) != components(path)
                && path_before(path, list[k]),
        at > 0 ==> components(list[at - 1]) != components(path) && !path_before(path, list[at - 1]),
    ensures
        noted(list, path) == list.insert(at, path),
    decreases list.len(),
{
    if list.len() == 0 {
        assert(list.insert(0, path) =~= seq![path]);
    } else if at == list.len() {
        assert(list.insert(at, path) =~= list.push(path));
    } else {
        let front = list.drop_last();
        assert(components(list[list.len() - 1]) != components(path));
        assert forall|k: int| at <= k < front.len() implies components(#[trigger] front[k])
            != components(path) && path_before(path, front[k]) by {
            assert(front[k] == list[k]);
        }
        lemma_noted_at(front, path, at);
        assert(front.insert(at, path).push(list.last()) =~= list.insert(at, path));
    }
}

proof fn lemma_noted_already(list: Seq<Seq<char>>, path: Seq<char>, at: int)
    requires
        0 <= at < list.len(),
        forall|k: int|
            at < k < list.len() ==> components(#[trigger] list[k]) != components(path)
                && path_before(path, list[k]),
        components(list[at]) == components(path),
    ensures
        noted(list, path) == list,
    decreases list.len(),
{
    if at < list.len() - 1 {
        let front = list.drop_last();
        assert(components(list[list.len() - 1]) != components(path));
        assert forall|k: int| at < k < front.len() implies components(#[trigger] front[k])
            != components(path) && path_before(path, front[k]) by {
            assert(front[k] == list[k]);
        }
        lemma_noted_already(front, path, at);
        assert(front.push(list.last()) =~= list);
    }
}

impl Pending {
    /// An empty batch.
    pub fn new() -> (r: Pending)
        ensures
            r@ == Seq::<Seq<char>>::empty(),
    {
        let r = Pending { paths: Vec::new() };
        assert(r@ =~= Seq::<Seq<char>>::empty());
        r
    }

    /// Whether the batch is empty.
    pub fn is_empty(&self) -> (r: bool)
        ensures
            r == (self@.len() == 0),
    {
        self.paths.len() == 0
    }

    /// How many paths the batch holds.
    pub fn len(&self) -> (r: usize)
        ensures
            r == self@.len(),
    {
        self.paths.len()
    }

    /// Adds a path to the batch.
    pub fn insert(&mut self, path: String)
        ensures
            final(self)@ == noted(old(self)@, path@),
    {
        let parts = components_of(path.as_str());
        let ghost before = self@;
        let mut at: usize = self.paths.len();
        while at > 0
            invariant
                at <= self.paths@.len(),
                self@ == before,
                texts(parts@) == components(path@),
                forall|k: int|
                    at <= k < before.len() ==> components(#[trigger] before[k]) != components(
                        path@,
                    ) && path_before(path@, before[k]),
            ensures
                at <= self.paths@.len(),
                self@ == before,
                forall|k: int|
                    at <= k < before.len() ==> components(#[trigger] before[k]) != components(
                        path@,
                    ) && path_before(path@, before[k]),
                at > 0 ==> components(before[at - 1]) != components(path@) && !path_before(
                    path@,
                    before[at - 1],
                ),
            decreases at,
        {
            assert(self.paths@[at - 1]@ == before[at - 1]);
            let there = components_of(self.paths[at - 1].as_str());
            if same_texts(&there, &parts) {
                proof {
                    lemma_noted_already(before, path@, at - 1);
                }
                return;
            }
            if !is_before(&parts, &there) {
                break;
            }
            at = at - 1;
        }
        proof {
            lemma_noted_at(before, path@, at as int);
        }
        let ghost added = path@;
        self.paths.insert(at, path);
        assert(self@ =~= before.insert(at as int, added));
    }

    /// Empties the batch.
    pub fn clear(&mut self)
        ensures
            final(self)@ == Seq::<Seq<char>>::empty(),
    {
        self.paths = Vec::new();
        assert(self@ =~= Seq::<Seq<char>>::empty());
    }
}

/// What kind of thing happened to a file.
#[derive(Debug, PartialEq, Eq, Structural, Clone, Copy)]
pub enum ChangeKind {
    /// It was only read, opened or closed.
    Access,
    /// It was created, written, renamed or removed, or something unspecified.
    Change,
    /// Something that the watcher has no name for.
    Other,
}

/// A batch with the paths of one event, the ignored ones left out.
pub open spec fn collected(
    pending: Seq<Seq<char>>,
    paths: Seq<Seq<char>>,
    root: Seq<char>,
    patterns: Seq<Seq<char>>,
) -> Seq<Seq<char>>
    decreases paths.len(),
{
    if paths.len() == 0 {
        pending
    } else {
        let before = collected(pending, paths.drop_last(), root, patterns);
        if ignored(patterns, paths.last(), root) {
            before
        } else {
            noted(before, paths.last())
        }
    }
}

/// Records the paths from one event, dropping anything ignored.
///
/// Access events fire on plain reads and would reload the page whenever
/// anything so much as opened a file, including this server.
pub fn collect(
    kind: ChangeKind,
    paths: &Vec<String>,
    root: &str,
    ignore: &IgnoreSet,
    pending: &mut Pending,
)
    ensures
        final(pending)@ == if kind == ChangeKind::Change {
            collected(old(pending)@, texts(paths@), root@, ignore@)
        } else {
            old(pending)@
        },
{
    if kind != ChangeKind::Change {
        return;
    }
    let ghost before = pending@;
    let ghost all = texts(paths@);
    assert(all.take(0) =~= Seq::<Seq<char>>::empty());
    for i in 0..paths.len()
        invariant
            all == texts(paths@),
            pending@ == collected(before, all.take(i as int), root@, ignore@),
    {
        proof {
            assert(all.take(i + 1).drop_last() =~= all.take(i as int));
            assert(all.take(i + 1).last() == paths@[i as int]@);
        }
        if !is_ignored(paths[i].as_str(), root, ignore) {
            pending.insert(owned(paths[i].as_str()));
        }
    }
    assert(all.take(paths.len() as int) =~= all);
}

/* ----------------------------------------------------------------- planning */

/// The URL path that a file under the root is served at.
pub open spec fn served_at(path: Seq<char>, root: Seq<char>) -> Option<Seq<char>> {
    match relative_to(path, root) {
        Some(rest) => Some("/"@ + join(components(rest), "/"@)),
        None => None,
    }
}

/// What a changed file does to the page. One outside the document root, most
/// likely in a mounted directory, cannot be named in a hot swap.
pub open spec fn instruction_for(
    path: Seq<char>,
    root: Seq<char>,
    full_reload: bool,
) -> ReloadModel {
    match served_at(path, root) {
        Some(url_path) => classified(url_path, full_reload),
        None => ReloadModel::Full,
    }
}

/// The instructions for a list of changed files, each of them once.
pub open spec fn instructions(
    paths: Seq<Seq<char>>,
    root: Seq<char>,
    full_reload: bool,
) -> Seq<ReloadModel>
    decreases paths.len(),
{
    if paths.len() == 0 {
        Seq::empty()
    } else {
        let before = instructions(paths.drop_last(), root, full_reload);
        let next = instruction_for(paths.last(), root, full_reload);
        if before.contains(next) {
            before
        } else {
            before.push(next)
        }
    }
}

/// Whether one of the changed files calls for a full reload.
pub open spec fn calls_for_full_reload(
    paths: Seq<Seq<char>>,
    root: Seq<char>,
    full_reload: bool,
) -> bool {
    exists|k: int|
        0 <= k < paths.len() && instruction_for(#[trigger] paths[k], root, full_reload)
            == ReloadModel::Full
}

/// The instructions to send for a batch of changes: a single full reload
/// supersedes every hot swap in the same batch.
pub open spec fn planned(
    paths: Seq<Seq<char>>,
    root: Seq<char>,
    full_reload: bool,
) -> Seq<ReloadModel> {
    if calls_for_full_reload(paths, root, full_reload) {
        seq![ReloadModel::Full]
    } else {
        instructions(paths, root, full_reload)
    }
}

/// What a list of instructions says.
pub open spec fn reloads(list: Seq<Reload>) -> Seq<ReloadModel> {
    Seq::new(list.len(), |i: int| list[i]@)
}

/// Converts an absolute filesystem path into the URL path it is served at.
pub fn url_path_for(path: &str, root: &str) -> (r: Option<String>)
    ensures
        crate::config::maybe(r) == served_at(path@, root@),
{
    match strip_base(path, root) {
        Some(relative) => {
            let parts = components_of(relative.as_str());
            let mut url = owned("/");
            url.append(joined(&parts, "/").as_str());
            Some(url)
        },
        None => None,
    }
}

fn holds(list: &Vec<Reload>, instruction: &Reload) -> (r: bool)
    ensures
        r == reloads(list@).contains(instruction@),
{
    for i in 0..list.len()
        invariant
            forall|k: int| 0 <= k < i ==> #[trigger] reloads(list@)[k] != instruction@,
    {
        if list[i].same_as(instruction) {
            assert(reloads(list@)[i as int] == instruction@);
            return true;
        }
    }
    false
}

/// Reduces a batch of changed paths to the instructions to send.
///
/// A single full reload supersedes every hot swap in the same batch, so a build
/// that rewrites markup and stylesheets together produces one page load rather
/// than a reload plus a flurry of redundant stylesheet swaps.
pub fn plan(pending: &Pending, root: &str, config: &Config) -> (r: Vec<Reload>)
    ensures
        reloads(r@) == planned(pending@, root@, config@.full_reload),
{
    let mut out: Vec<Reload> = Vec::new();
    let ghost all = pending@;
    let ghost full = config@.full_reload;
    assert(all.take(0) =~= Seq::<Seq<char>>::empty());
    assert(reloads(out@) =~= Seq::<ReloadModel>::empty());
    for i in 0..pending.paths.len()
        invariant
            all == texts(pending.paths@),
            full == config@.full_reload,
            reloads(out@) == instructions(all.take(i as int), root@, full),
            forall|k: int|
                0 <= k < i ==> instruction_for(#[trigger] all[k], root@, full)
                    != ReloadModel::Full,
    {
        let path = pending.paths[i].as_str();
        assert(path@ == all[i as int]);
        let instruction = match url_path_for(path, root) {
            Some(url_path) => classify(url_path.as_str(), config.full_reload),
            None => Reload::Full,
        };
        assert(instruction@ == instruction_for(all[i as int], root@, full));
        if instruction.same_as(&Reload::Full) {
            let only = vec![Reload::Full];
            assert(reloads(only@) =~= seq![ReloadModel::Full]);
            assert(calls_for_full_reload(all, root@, full));
            return only;
        }
        proof {
            assert(all.take(i + 1).drop_last() =~= all.take(i as int));
            assert(all.take(i + 1).last() == path@);
        }
        if !holds(&out, &instruction) {
            let ghost before = reloads(out@);
            let ghost next = instruction@;
            out.push(instruction);
            assert(reloads(out@) =~= before.push(next));
        }
    }
    assert(all.take(pending.paths.len() as int) =~= all);
    out
}

/// How long the filesystem has to be quiet, in milliseconds, before a batch is
/// complete. A zero wait would reload on each of the several writes a tool
/// makes while saving, so the window is never allowed to fully close.
pub fn quiet_window(config: &Config) -> (r: u64)
    ensures
        r == if config@.wait < 20 {
            20
        } else {
            config@.wait
        },
{
    if config.wait < 20 {
        20
    } else {
        config.wait
    }
}

/// Closes a batch: gives the instructions to send for it, and empties it.
pub fn debounce(pending: &mut Pending, root: &str, config: &Config) -> (r: Vec<Reload>)
    ensures
        reloads(r@) == planned(old(pending)@, root@, config@.full_reload),
        final(pending)@ == Seq::<Seq<char>>::empty(),
{
    let out = plan(pending, root, config);
    pending.clear();
    out
}

/* --------------------------------------------------------------------- laws */

proof fn lemma_instructions(paths: Seq<Seq<char>>, root: Seq<char>, full_reload: bool)
    ensures
        forall|k: int|
            0 <= k < paths.len() ==> instructions(paths, root, full_reload).contains(
                instruction_for(#[trigger] paths[k], root, full_reload),
            ),
        forall|i: int|
            0 <= i < instructions(paths, root, full_reload).len() ==> exists|k: int|
                0 <= k < paths.len() && instruction_for(#[trigger] paths[k], root, full_reload)
                    == #[trigger] instructions(paths, root, full_reload)[i],
        instructions(paths, root, full_reload).no_duplicates(),
    decreases paths.len(),
{
    if paths.len() > 0 {
        let front = paths.drop_last();
        lemma_instructions(front, root, full_reload);
        let before = instructions(front, root, full_reload);
        let now = instructions(paths, root, full_reload);
        let next = instruction_for(paths.last(), root, full_reload);
        assert forall|k: int| 0 <= k < paths.len() implies now.contains(
            instruction_for(#[trigger] paths[k], root, full_reload),
        ) by {
            if k < front.len() {
                assert(front[k] == paths[k]);
                let m = choose|m: int|
                    0 <= m < before.len() && before[m] == instruction_for(
                        front[k],
                        root,
                        full_reload,
                    );
                assert(now[m] == before[m]);
            } else if !before.contains(next) {
                assert(now[before.len() as int] == next);
            }
        }
        assert forall|i: int| 0 <= i < now.len() implies exists|k: int|
            0 <= k < paths.len() && instruction_for(#[trigger] paths[k], root, full_reload)
                == #[trigger] now[i] by {
            if i < before.len() {
                assert(now[i] == before[i]);
                let k = choose|k: int|
                    0 <= k < front.len() && instruction_for(#[trigger] front[k], root, full_reload)
                        == before[i];
                assert(paths[k] == front[k]);
            } else {
                assert(instruction_for(paths[paths.len() - 1], root, full_reload) == now[i]);
            }
        }
    }
}

/// A batch that contains any full reload collapses to that one reload.
pub proof fn law_a_full_reload_supersedes_hot_swaps(
    paths: Seq<Seq<char>>,
    root: Seq<char>,
    full_reload: bool,
    k: int,
)
    requires
        0 <= k < paths.len(),
        instruction_for(paths[k], root, full_reload) == ReloadModel::Full,
    ensures
        planned(paths, root, full_reload) == seq![ReloadModel::Full],
{
}

/// What is sent for a batch covers every change in it, sends nothing twice and
/// nothing that no change calls for.
pub proof fn law_a_plan_covers_every_change(
    paths: Seq<Seq<char>>,
    root: Seq<char>,
    full_reload: bool,
)
    ensures
        planned(paths, root, full_reload).no_duplicates(),
        forall|k: int|
            0 <= k < paths.len() ==> planned(paths, root, full_reload).contains(ReloadModel::Full)
                || planned(paths, root, full_reload).contains(
                instruction_for(#[trigger] paths[k], root, full_reload),
            ),
        forall|i: int|
            0 <= i < planned(paths, root, full_reload).len() ==> exists|k: int|
                0 <= k < paths.len() && instruction_for(#[trigger] paths[k], root, full_reload)
                    == #[trigger] planned(paths, root, full_reload)[i],
{
    lemma_instructions(paths, root, full_reload);
    if calls_for_full_reload(paths, root, full_reload) {
        assert(seq![ReloadModel::Full][0] == ReloadModel::Full);
    }
}

/// With the override set, any batch that is not empty reloads the page.
pub proof fn law_the_override_always_reloads(paths: Seq<Seq<char>>, root: Seq<char>)
    requires
        paths.len() > 0,
    ensures
        planned(paths, root, true) == seq![ReloadModel::Full],
{
    assert(instruction_for(paths[0], root, true) == ReloadModel::Full);
}

/// A path is noted once: noting it again, or another spelling of it, changes
/// nothing.
pub proof fn law_a_path_is_noted_once(list: Seq<Seq<char>>, path: Seq<char>, again: Seq<char>)
    requires
        components(path) == components(again),
    ensures
        noted(noted(list, path), again) == noted(list, path),
    decreases list.len(),
{
    let once = noted(list, path);
    if list.len() == 0 {
        assert(once.last() == path);
    } else if components(list.last()) == components(path) {
    } else if path_before(path, list.last()) {
        law_a_path_is_noted_once(list.drop_last(), path, again);
        assert(once.drop_last() =~= noted(list.drop_last(), path));
        assert(once.last() == list.last());
        assert(once.drop_last().push(once.last()) =~= once);
    } else {
        assert(once.last() == path);
    }
}

} // verus!
