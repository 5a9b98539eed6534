//! Paths as text.
//!
//! A path is text with `/` between its segments. Empty segments and `.` name
//! nothing, except for a `.` that a relative path opens with. What is left are
//! the components, with `/` itself as the first component of an absolute path.
//!
//! A path of a system with other separators is brought into this form by
//! [`slashed`] before anything else is done with it.

use vstd::prelude::*;

use crate::text::{
    ascii_lower, chars_of, lemma_texts_push, lower_char, owned, same_text, text_of, texts,
};

verus! {

/* --------------------------------------------------------------- separators */

/// Whether a Windows path begins with the marker that turns off the usual
/// reading of paths: `\\?\`.
pub open spec fn is_verbatim(p: Seq<char>) -> bool {
    p.len() >= 4 && p[0] == '\\' && p[1] == '\\' && p[2] == '?' && p[3] == '\\'
}

/// Whether a verbatim path goes on with a share: with `UNC\`.
pub open spec fn names_share(p: Seq<char>) -> bool {
    p.len() >= 8 && p[4] == 'U' && p[5] == 'N' && p[6] == 'C' && p[7] == '\\'
}

/// Whether a verbatim path goes on with a drive: with a letter and `:`.
pub open spec fn names_drive(p: Seq<char>) -> bool {
    p.len() >= 6 && p[5] == ':'
}

/// A Windows path without the marker that turns off the usual reading, where it
/// means the same without it.
pub open spec fn without_marker(p: Seq<char>) -> Seq<char> {
    if is_verbatim(p) && names_share(p) {
        seq!['\\', '\\'] + p.skip(8)
    } else if is_verbatim(p) && names_drive(p) {
        p.skip(4)
    } else {
        p
    }
}

/// A path with `/` between its components. On Windows `\` separates them too;
/// a path that can only be written with it is left as it is.
pub open spec fn slashed_text(p: Seq<char>, windows: bool) -> Seq<char> {
    let bare = without_marker(p);
    if !windows || is_verbatim(bare) {
        p
    } else {
        Seq::new(
            bare.len(),
            |i: int|
                if bare[i] == '\\' {
                    '/'
                } else {
                    bare[i]
                },
        )
    }
}

fn verbatim(p: &[char]) -> (r: bool)
    ensures
        r == is_verbatim(p@),
{
    p.len() >= 4 && p[0] == '\\' && p[1] == '\\' && p[2] == '?' && p[3] == '\\'
}

/// Writes a path of the system with `/` between its components. `windows` says
/// whether the system separates them with `\` too.
pub fn slashed(path: &str, windows: bool) -> (r: String)
    ensures
        r@ == slashed_text(path@, windows),
{
    let p = chars_of(path);
    if !windows {
        return owned(path);
    }
    let mut bare: Vec<char> = Vec::new();
    let mut from: usize = 0;
    if verbatim(p.as_slice()) {
        if p.len() >= 8 && p[4] == 'U' && p[5] == 'N' && p[6] == 'C' && p[7] == '\\' {
            bare.push('\\');
            bare.push('\\');
            from = 8;
        } else if p.len() >= 6 && p[5] == ':' {
            from = 4;
        }
    }
    let ghost lead = bare@;
    assert(lead + p@.skip(from as int) =~= without_marker(path@));
    assert(p@.subrange(from as int, from as int) =~= Seq::<char>::empty());
    for i in from..p.len()
        invariant
            from <= p@.len(),
            bare@ == lead + p@.subrange(from as int, i as int),
    {
        bare.push(p[i]);
        assert(bare@ =~= lead + p@.subrange(from as int, i + 1));
    }
    assert(bare@ =~= without_marker(path@));
    if verbatim(bare.as_slice()) {
        return owned(path);
    }
    let mut out = String::new();
    for i in 0..bare.len()
        invariant
            bare@ == without_marker(path@),
            windows,
            !is_verbatim(bare@),
            out@ == slashed_text(path@, windows).take(i as int),
    {
        if bare[i] == '\\' {
            out.push('/');
        } else {
            out.push(bare[i]);
        }
        assert(out@ =~= slashed_text(path@, windows).take(i + 1));
    }
    assert(out@ =~= slashed_text(path@, windows));
    out
}

/// Whether a path begins at the root of a drive: with a letter, `:` and `/`.
pub open spec fn begins_at_drive(p: Seq<char>) -> bool {
    p.len() >= 3 && ('a' <= ascii_lower(p[0]) <= 'z') && p[1] == ':' && p[2] == '/'
}

/// Whether a path does not depend on where it is looked up from. `drives` says
/// whether a path may begin at a drive.
pub open spec fn stands_alone(p: Seq<char>, drives: bool) -> bool {
    is_absolute(p) || drives && begins_at_drive(p)
}

/// Whether a path does not depend on where it is looked up from.
pub fn is_complete(path: &str, drives: bool) -> (r: bool)
    ensures
        r == stands_alone(path@, drives),
{
    let p = chars_of(path);
    if p.len() > 0 && p[0] == '/' {
        return true;
    }
    if !drives || p.len() < 3 {
        return false;
    }
    let letter = lower_char(p[0]);
    'a' <= letter && letter <= 'z' && p[1] == ':' && p[2] == '/'
}

/* ----------------------------------------------------------------- segments */

/// Where the segment that begins at `i` ends: at the next `/`, or at the end.
pub open spec fn segment_end(p: Seq<char>, i: int) -> int
    decreases p.len() - i,
{
    if i >= p.len() || p[i] == '/' {
        i
    } else {
        segment_end(p, i + 1)
    }
}

/// What a segment's end means, position by position.
pub proof fn lemma_segment_end(p: Seq<char>, i: int)
    requires
        0 <= i <= p.len(),
    ensures
        i <= segment_end(p, i) <= p.len(),
        forall|j: int| i <= j < segment_end(p, i) ==> p[j] != '/',
        segment_end(p, i) < p.len() ==> p[segment_end(p, i)] == '/',
    decreases p.len() - i,
{
    if i < p.len() && p[i] != '/' {
        lemma_segment_end(p, i + 1);
    }
}

/// A segment ends where the next `/` stands, or at the end.
pub proof fn lemma_segment_end_is(p: Seq<char>, i: int, e: int)
    requires
        0 <= i <= e <= p.len(),
        forall|j: int| i <= j < e ==> p[j] != '/',
        e < p.len() ==> p[e] == '/',
    ensures
        segment_end(p, i) == e,
{
    lemma_segment_end(p, i);
}

/// Whether the segment from `i` to `e` is a component.
pub open spec fn is_component(p: Seq<char>, i: int, e: int) -> bool {
    i < e && !(p.subrange(i, e) == seq!['.'] && i != 0)
}

/// Where the components from position `i` on begin and end, without the root.
pub open spec fn spans_from(p: Seq<char>, i: int) -> Seq<(int, int)>
    decreases p.len() + 1 - i,
    when 0 <= i
{
    if i >= p.len() {
        Seq::empty()
    } else {
        proof {
            lemma_segment_end(p, i);
        }
        let e = segment_end(p, i);
        let rest = spans_from(p, e + 1);
        if is_component(p, i, e) {
            seq![(i, e)] + rest
        } else {
            rest
        }
    }
}

/// Where the components begin and end, without the root.
pub open spec fn spans(p: Seq<char>) -> Seq<(int, int)> {
    spans_from(p, 0)
}

/// Whether a path starts at the root.
pub open spec fn is_absolute(p: Seq<char>) -> bool {
    p.len() > 0 && p[0] == '/'
}

/// The components before the first named one: `/` for an absolute path.
pub open spec fn root_of(p: Seq<char>) -> Seq<Seq<char>> {
    if is_absolute(p) {
        seq![seq!['/']]
    } else {
        Seq::empty()
    }
}

/// The components of a path, in order.
pub open spec fn components(p: Seq<char>) -> Seq<Seq<char>> {
    root_of(p) + Seq::new(spans(p).len(), |k: int| p.subrange(spans(p)[k].0, spans(p)[k].1))
}

/// Whether a component names something, rather than being `/`, `.` or `..`.
pub open spec fn is_normal(c: Seq<char>) -> bool {
    c != seq!['/'] && c != seq!['.'] && c != seq!['.', '.']
}

/// Spans follow one another, stay inside the path and hold no `/`.
pub proof fn lemma_spans(p: Seq<char>, i: int)
    requires
        0 <= i,
    ensures
        forall|k: int|
            #![trigger spans_from(p, i)[k]]
            0 <= k < spans_from(p, i).len() ==> {
                let (a, b) = spans_from(p, i)[k];
                &&& i <= a < b <= p.len()
                &&& b < p.len() ==> p[b] == '/'
                &&& forall|j: int| a <= j < b ==> p[j] != '/'
                &&& is_component(p, a, b)
            },
        forall|k: int, l: int|
            #![trigger spans_from(p, i)[k], spans_from(p, i)[l]]
            0 <= k < l < spans_from(p, i).len() ==> spans_from(p, i)[k].1 < spans_from(p, i)[l].0,
    decreases p.len() + 1 - i,
{
    if i < p.len() {
        lemma_segment_end(p, i);
        let e = segment_end(p, i);
        lemma_spans(p, e + 1);
        let rest = spans_from(p, e + 1);
        let all = spans_from(p, i);
        if is_component(p, i, e) {
            assert forall|k: int| #![trigger all[k]] 0 <= k < all.len() implies {
                let (a, b) = all[k];
                &&& i <= a < b <= p.len()
                &&& b < p.len() ==> p[b] == '/'
                &&& forall|j: int| a <= j < b ==> p[j] != '/'
                &&& is_component(p, a, b)
            } by {
                if k > 0 {
                    assert(all[k] == rest[k - 1]);
                }
            }
            assert forall|k: int, l: int|
                #![trigger all[k], all[l]]
                0 <= k < l < all.len() implies all[k].1 < all[l].0 by {
                assert(all[l] == rest[l - 1]);
                if k > 0 {
                    assert(all[k] == rest[k - 1]);
                }
            }
        }
    }
}

/// The spans that executable code works with, as positions.
pub open spec fn positions(v: Seq<(usize, usize)>) -> Seq<(int, int)> {
    Seq::new(v.len(), |k: int| (v[k].0 as int, v[k].1 as int))
}

/// Finds where the components begin and end.
pub fn find_spans(p: &[char]) -> (r: Vec<(usize, usize)>)
    ensures
        positions(r@) == spans(p@),
{
    let mut out: Vec<(usize, usize)> = Vec::new();
    let mut i: usize = 0;
    assert(positions(out@) + spans_from(p@, 0) =~= spans(p@));
    while i < p.len()
        invariant
            i <= p@.len() + 1,
            positions(out@) + spans_from(p@, i as int) == spans(p@),
        decreases p@.len() + 1 - i,
    {
        let mut e: usize = i;
        while e < p.len() && p[e] != '/'
            invariant
                i <= e <= p@.len(),
                segment_end(p@, i as int) == segment_end(p@, e as int),
            decreases p@.len() - e,
        {
            e = e + 1;
        }
        assert(segment_end(p@, i as int) == e);
        let dot = e == i + 1 && p[i] == '.';
        assert(dot == (p@.subrange(i as int, e as int) == seq!['.'])) by {
            if dot {
                assert(p@.subrange(i as int, e as int) =~= seq!['.']);
            } else if p@.subrange(i as int, e as int) == seq!['.'] {
                assert(p@.subrange(i as int, e as int).len() == seq!['.'].len());
                assert(p@.subrange(i as int, e as int)[0] == '.');
            }
        }
        let ghost before = positions(out@);
        if i < e && !(dot && i != 0) {
            out.push((i, e));
            assert(positions(out@) =~= before.push((i as int, e as int)));
            assert(positions(out@) + spans_from(p@, e + 1) =~= before + spans_from(p@, i as int));
        }
        if e == p.len() {
            assert(spans_from(p@, e + 1) =~= Seq::<(int, int)>::empty());
            assert(positions(out@) =~= spans(p@));
            return out;
        }
        i = e + 1;
    }
    assert(positions(out@) =~= spans(p@));
    out
}

/// Splits a path into its components.
pub fn components_of(path: &str) -> (r: Vec<String>)
    ensures
        texts(r@) == components(path@),
{
    broadcast use lemma_texts_push;

    let p = chars_of(path);
    let found = find_spans(p.as_slice());
    let mut out: Vec<String> = Vec::new();
    if p.len() > 0 && p[0] == '/' {
        let root = text_of(&['/']);
        assert(root@ =~= seq!['/']);
        out.push(root);
    }
    assert(texts(out@) =~= root_of(path@));
    let ghost named = Seq::new(
        spans(path@).len(),
        |k: int| path@.subrange(spans(path@)[k].0, spans(path@)[k].1),
    );
    assert(named.take(0) =~= Seq::<Seq<char>>::empty());
    for k in 0..found.len()
        invariant
            p@ == path@,
            positions(found@) == spans(path@),
            named == Seq::new(
                spans(path@).len(),
                |k: int| path@.subrange(spans(path@)[k].0, spans(path@)[k].1),
            ),
            texts(out@) == root_of(path@) + named.take(k as int),
    {
        broadcast use lemma_texts_push;

        let (a, b) = found[k];
        proof {
            lemma_spans(path@, 0);
            assert(spans(path@)[k as int] == positions(found@)[k as int]);
            assert(spans_from(path@, 0)[k as int] == (a as int, b as int));
        }
        out.push(text_of(vstd::slice::slice_subrange(p.as_slice(), a, b)));
        assert((root_of(path@) + named.take(k as int)).push(named[k as int]) =~= root_of(path@)
            + named.take(k + 1));
    }
    assert(named.take(found.len() as int) =~= named);
    out
}

/* ------------------------------------------------------------------ prefixes */

/// Whether the components of `base` are the first ones of `p`.
pub open spec fn within(p: Seq<char>, base: Seq<char>) -> bool {
    components(base).is_prefix_of(components(p))
}

/// Whether a path is `base` or lies somewhere under it.
pub fn is_within(path: &str, base: &str) -> (r: bool)
    ensures
        r == within(path@, base@),
{
    let have = components_of(path);
    let want = components_of(base);
    if want.len() > have.len() {
        return false;
    }
    for k in 0..want.len()
        invariant
            want@.len() <= have@.len(),
            texts(want@) == components(base@),
            texts(have@) == components(path@),
            forall|j: int| 0 <= j < k ==> texts(want@)[j] == texts(have@)[j],
    {
        if !same_text(want[k].as_str(), have[k].as_str()) {
            assert(texts(want@)[k as int] != texts(have@)[k as int]);
            assert(components(path@).subrange(0, components(base@).len() as int)[k as int]
                == components(path@)[k as int]);
            return false;
        }
    }
    assert(components(base@) =~= components(path@).subrange(0, components(base@).len() as int));
    true
}

/// Where the last component ends.
pub open spec fn tail_end(p: Seq<char>) -> int {
    if spans(p).len() > 0 {
        spans(p).last().1
    } else if is_absolute(p) {
        1
    } else {
        0
    }
}

/// What is left of a path after its first `n` components.
pub open spec fn after_components(p: Seq<char>, n: int) -> Seq<char> {
    let skipped = n - root_of(p).len();
    if n <= 0 {
        p.take(tail_end(p))
    } else if 0 <= skipped < spans(p).len() {
        p.subrange(spans(p)[skipped].0, tail_end(p))
    } else {
        Seq::empty()
    }
}

/// The rest of a path below `base`, if it lies there.
pub open spec fn relative_to(p: Seq<char>, base: Seq<char>) -> Option<Seq<char>> {
    if within(p, base) {
        Some(after_components(p, components(base).len() as int))
    } else {
        None
    }
}

/// Takes `base` off the front of a path.
pub fn strip_base(path: &str, base: &str) -> (r: Option<String>)
    ensures
        match r {
            Some(rest) => relative_to(path@, base@) == Some(rest@),
            None => relative_to(path@, base@) is None,
        },
{
    if !is_within(path, base) {
        return None;
    }
    let p = chars_of(path);
    let found = find_spans(p.as_slice());
    let absolute = p.len() > 0 && p[0] == '/';
    let count: usize = components_of(base).len();
    let root: usize = if absolute {
        1
    } else {
        0
    };
    proof {
        lemma_spans(path@, 0);
        assert(found@.len() == spans(path@).len());
        if found@.len() > 0 {
            assert(spans_from(path@, 0)[found@.len() - 1] == positions(found@)[found@.len() - 1]);
        }
        assert(components(base@).len() == count);
        assert(root_of(path@).len() == root);
    }
    let end: usize = if found.len() > 0 {
        found[found.len() - 1].1
    } else {
        root
    };
    assert(end == tail_end(path@));
    if count == 0 {
        assert(p@.subrange(0, end as int) =~= path@.take(end as int));
        return Some(text_of(vstd::slice::slice_subrange(p.as_slice(), 0, end)));
    }
    if count >= root && count - root < found.len() {
        let start = found[count - root].0;
        proof {
            assert(spans_from(path@, 0)[count - root] == positions(found@)[count - root]);
        }
        return Some(text_of(vstd::slice::slice_subrange(p.as_slice(), start, end)));
    }
    Some(String::new())
}

/* ----------------------------------------------------------------- ancestors */

/// A path and everything above it, nearest first, without the empty path.
pub open spec fn ancestors(p: Seq<char>) -> Seq<Seq<char>> {
    let n = spans(p).len();
    if p.len() == 0 {
        Seq::empty()
    } else if n == 0 {
        seq![p]
    } else {
        seq![p] + Seq::new((n - 1) as nat, |k: int| p.take(spans(p)[n - 2 - k].1)) + root_of(p)
    }
}

/// Lists a path and everything above it.
pub fn ancestors_of(path: &str) -> (r: Vec<String>)
    ensures
        texts(r@) == ancestors(path@),
{
    broadcast use lemma_texts_push;

    let p = chars_of(path);
    let mut out: Vec<String> = Vec::new();
    if p.len() == 0 {
        assert(texts(out@) =~= ancestors(path@));
        return out;
    }
    let found = find_spans(p.as_slice());
    out.push(owned(path));
    assert(texts(out@) =~= seq![path@]);
    if found.len() == 0 {
        assert(spans(path@).len() == 0);
        assert(texts(out@) =~= ancestors(path@));
        return out;
    }
    let n: usize = found.len();
    let ghost above = Seq::new((n - 1) as nat, |k: int| path@.take(spans(path@)[n - 2 - k].1));
    assert(positions(found@).len() == n);
    assert(texts(out@) =~= seq![path@] + above.take(0));
    for k in 0..n - 1
        invariant
            p@ == path@,
            n == found@.len(),
            n > 0,
            positions(found@) == spans(path@),
            above == Seq::new((n - 1) as nat, |k: int| path@.take(spans(path@)[n - 2 - k].1)),
            texts(out@) == seq![path@] + above.take(k as int),
    {
        broadcast use lemma_texts_push;

        let end = found[n - 2 - k].1;
        proof {
            lemma_spans(path@, 0);
            assert(spans_from(path@, 0)[n - 2 - k] == positions(found@)[n - 2 - k]);
            assert(p@.subrange(0, end as int) =~= above[k as int]);
        }
        out.push(text_of(vstd::slice::slice_subrange(p.as_slice(), 0, end)));
        assert((seq![path@] + above.take(k as int)).push(above[k as int]) =~= seq![path@]
            + above.take(k + 1));
    }
    assert(above.take(n - 1) =~= above);
    if p[0] == '/' {
        let root = text_of(&['/']);
        assert(root@ =~= seq!['/']);
        out.push(root);
    }
    assert(texts(out@) =~= ancestors(path@));
    out
}

/* ------------------------------------------------------------------- joining */

/// `rel` placed under `base`; an absolute `rel` stands on its own.
pub open spec fn join_path(base: Seq<char>, rel: Seq<char>) -> Seq<char> {
    if is_absolute(rel) {
        rel
    } else if base.len() == 0 || base.last() == '/' {
        base + rel
    } else {
        base.push('/') + rel
    }
}

/// Places `rel` under `base`.
pub fn join_paths(base: &str, rel: &str) -> (r: String)
    ensures
        r@ == join_path(base@, rel@),
{
    let b = chars_of(base);
    let c = chars_of(rel);
    if c.len() > 0 && c[0] == '/' {
        return owned(rel);
    }
    let mut out = owned(base);
    if b.len() > 0 && b[b.len() - 1] != '/' {
        out.push('/');
    }
    out.append(rel);
    out
}

/* ----------------------------------------------------------------- file names */

/// The name of what a path leads to, if its last component is a name.
pub open spec fn file_name(p: Seq<char>) -> Option<Seq<char>> {
    let c = components(p);
    if c.len() > 0 && is_normal(c.last()) {
        Some(c.last())
    } else {
        None
    }
}

/// The last place before `upto` where a `.` stands.
pub open spec fn last_dot(s: Seq<char>, upto: int) -> Option<int>
    decreases upto,
{
    if upto <= 0 {
        None
    } else if s[upto - 1] == '.' {
        Some(upto - 1)
    } else {
        last_dot(s, upto - 1)
    }
}

/// What follows the last `.` of a name, unless the name only begins with it.
pub open spec fn name_extension(name: Seq<char>) -> Option<Seq<char>> {
    match last_dot(name, name.len() as int) {
        Some(i) => if i == 0 {
            None
        } else {
            Some(name.skip(i + 1))
        },
        None => None,
    }
}

/// The extension of the file that a path leads to.
pub open spec fn extension(p: Seq<char>) -> Option<Seq<char>> {
    match file_name(p) {
        Some(name) => name_extension(name),
        None => None,
    }
}

/// Whether a component names something.
pub fn names_something(c: &str) -> (r: bool)
    ensures
        r == is_normal(c@),
{
    let s = chars_of(c);
    let special = (s.len() == 1 && (s[0] == '/' || s[0] == '.')) || (s.len() == 2 && s[0] == '.'
        && s[1] == '.');
    proof {
        if special {
            assert(c@ =~= seq!['/'] || c@ =~= seq!['.'] || c@ =~= seq!['.', '.']);
        } else {
            if c@ == seq!['/'] {
                assert(c@[0] == '/');
            }
            if c@ == seq!['.'] {
                assert(c@[0] == '.');
            }
            if c@ == seq!['.', '.'] {
                assert(c@[0] == '.' && c@[1] == '.');
            }
        }
    }
    !special
}

/// Finds the extension of the file that a path leads to.
pub fn extension_of(path: &str) -> (r: Option<String>)
    ensures
        match r {
            Some(e) => extension(path@) == Some(e@),
            None => extension(path@) is None,
        },
{
    let parts = components_of(path);
    if parts.len() == 0 {
        return None;
    }
    let ghost last = components(path@).last();
    assert(texts(parts@)[parts@.len() - 1] == last);
    if !names_something(parts[parts.len() - 1].as_str()) {
        return None;
    }
    let name = chars_of(parts[parts.len() - 1].as_str());
    let mut i: usize = name.len();
    while i > 0
        invariant
            i <= name@.len(),
            last_dot(name@, name@.len() as int) == last_dot(name@, i as int),
            name@ == last,
            file_name(path@) == Some(last),
        decreases i,
    {
        if name[i - 1] == '.' {
            if i == 1 {
                return None;
            }
            assert(name@.subrange(i as int, name@.len() as int) =~= name@.skip(i as int));
            return Some(text_of(vstd::slice::slice_subrange(name.as_slice(), i, name.len())));
        }
        i = i - 1;
    }
    None
}

} // verus!
