//! How components behave when paths are extended and cut.

use vstd::prelude::*;

use crate::path::{
    after_components, ancestors, components, is_absolute, is_component, is_normal, is_verbatim,
    join_path, lemma_segment_end, lemma_segment_end_is, lemma_spans, relative_to, root_of,
    segment_end, slashed_text, spans, spans_from, stands_alone, tail_end, within, without_marker,
};

verus! {

/* ------------------------------------------------------------------ extending */

/// Whether a text can stand as one named component.
pub open spec fn is_name(part: Seq<char>) -> bool {
    &&& is_part(part)
    &&& part != seq!['.', '.']
}

/// Whether a text can stand as one component behind others, be it a name or the
/// way up.
pub open spec fn is_part(part: Seq<char>) -> bool {
    &&& part.len() > 0
    &&& part != seq!['.']
    &&& forall|i: int| 0 <= i < part.len() ==> part[i] != '/'
}

/// A name names something.
pub proof fn lemma_name_is_normal(part: Seq<char>)
    requires
        is_name(part),
    ensures
        is_normal(part),
{
    if part == seq!['/'] {
        assert(part[0] == '/');
    }
}

proof fn lemma_spans_under(base: Seq<char>, sep: Seq<char>, part: Seq<char>, i: int)
    requires
        is_part(part),
        sep == Seq::<char>::empty() && (base.len() == 0 || base.last() == '/') || sep == seq!['/']
            && base.len() > 0 && base.last() != '/',
        0 <= i <= base.len() + sep.len(),
    ensures
        spans_from(base + sep + part, i) == spans_from(base, i).push(
            ((base.len() + sep.len()) as int, (base.len() + sep.len() + part.len()) as int),
        ),
    decreases base.len() + sep.len() - i,
{
    let full = base + sep + part;
    let start = (base.len() + sep.len()) as int;
    if i == start {
        lemma_segment_end_is(full, i, full.len() as int);
        assert(full.subrange(i, full.len() as int) =~= part);
        assert(spans_from(full, full.len() as int + 1) =~= Seq::<(int, int)>::empty());
        assert(spans_from(base, i) =~= Seq::<(int, int)>::empty());
        assert(spans_from(full, i) =~= spans_from(base, i).push((start, full.len() as int)));
    } else if i == base.len() {
        assert(sep.len() == 1);
        assert(full[i] == '/');
        lemma_segment_end_is(full, i, i);
        lemma_spans_under(base, sep, part, i + 1);
        assert(spans_from(base, i + 1) =~= spans_from(base, i));
    } else {
        lemma_segment_end(base, i);
        let e = segment_end(base, i);
        assert forall|j: int| i <= j < e implies full[j] != '/' by {
            assert(full[j] == base[j]);
        }
        if e < base.len() {
            assert(full[e] == base[e]);
        } else if sep.len() == 0 {
            assert(base[base.len() - 1] == '/');
        } else {
            assert(full[e] == '/');
        }
        lemma_segment_end_is(full, i, e);
        assert(full.subrange(i, e) =~= base.subrange(i, e));
        lemma_spans_under(base, sep, part, e + 1);
        if is_component(base, i, e) {
            assert(spans_from(full, i) =~= seq![(i, e)] + spans_from(full, e + 1));
            assert(spans_from(full, i) =~= spans_from(base, i).push((start, full.len() as int)));
        }
    }
}

/// A name, or the way up, joined onto a path becomes its last component, and the
/// components before it are those of the path.
pub proof fn law_join_adds_a_component(base: Seq<char>, part: Seq<char>)
    requires
        is_part(part),
    ensures
        components(join_path(base, part)) == components(base).push(part),
{
    let sep = if base.len() == 0 || base.last() == '/' {
        Seq::<char>::empty()
    } else {
        seq!['/']
    };
    let full = base + sep + part;
    assert(part[0] != '/');
    assert(join_path(base, part) =~= full);
    lemma_spans_under(base, sep, part, 0);
    lemma_spans(base, 0);
    let start = (base.len() + sep.len()) as int;
    assert(spans(full) == spans(base).push((start, full.len() as int)));
    if base.len() > 0 {
        assert(full[0] == base[0]);
    } else {
        assert(full =~= part);
    }
    assert(root_of(full) == root_of(base));
    let n = spans(base).len();
    assert forall|k: int| 0 <= k <= n implies #[trigger] full.subrange(
        spans(full)[k].0,
        spans(full)[k].1,
    ) == (if k < n {
        base.subrange(spans(base)[k].0, spans(base)[k].1)
    } else {
        part
    }) by {
        if k < n {
            assert(spans(full)[k] == spans_from(base, 0)[k]);
            assert(full.subrange(spans(full)[k].0, spans(full)[k].1) =~= base.subrange(
                spans(base)[k].0,
                spans(base)[k].1,
            ));
        } else {
            assert(full.subrange(start, full.len() as int) =~= part);
        }
    }
    assert(components(full) =~= components(base).push(part));
}

/* -------------------------------------------------------------------- cutting */

proof fn lemma_spans_cut(p: Seq<char>, i: int, k: int)
    requires
        0 <= i,
        0 <= k < spans_from(p, i).len(),
    ensures
        spans_from(p.take(spans_from(p, i)[k].1), i) == spans_from(p, i).take(k + 1),
    decreases p.len() + 1 - i,
{
    lemma_spans(p, i);
    let c = spans_from(p, i)[k].1;
    let cut = p.take(c);
    lemma_segment_end(p, i);
    let e = segment_end(p, i);
    lemma_spans(p, e + 1);
    let rest = spans_from(p, e + 1);
    if is_component(p, i, e) {
        assert(spans_from(p, i) == seq![(i, e)] + rest);
        if k > 0 {
            assert(spans_from(p, i)[k] == rest[k - 1]);
        }
    }
    assert(e <= c);
    lemma_segment_end_is(cut, i, e);
    assert(cut.subrange(i, e) =~= p.subrange(i, e));
    if is_component(p, i, e) {
        if k == 0 {
            assert(spans_from(cut, e + 1) =~= Seq::<(int, int)>::empty());
            assert(spans_from(cut, i) =~= spans_from(p, i).take(1));
        } else {
            lemma_spans_cut(p, e + 1, k - 1);
            assert(spans_from(cut, i) =~= spans_from(p, i).take(k + 1));
        }
    } else {
        lemma_spans_cut(p, e + 1, k);
    }
}

proof fn lemma_spans_after(p: Seq<char>, i: int, k: int)
    requires
        0 <= i,
        0 <= k < spans_from(p, i).len(),
    ensures
        spans_from(p, spans_from(p, i)[k].1 + 1) == spans_from(p, i).skip(k + 1),
        spans_from(p, spans_from(p, i)[k].0) == spans_from(p, i).skip(k),
    decreases p.len() + 1 - i,
{
    lemma_segment_end(p, i);
    let e = segment_end(p, i);
    let rest = spans_from(p, e + 1);
    let all = spans_from(p, i);
    if is_component(p, i, e) {
        if k == 0 {
            assert(all.skip(1) =~= rest);
            assert(all.skip(0) =~= all);
        } else {
            lemma_spans_after(p, e + 1, k - 1);
            assert(all[k] == rest[k - 1]);
            assert(all.skip(k + 1) =~= rest.skip(k));
            assert(all.skip(k) =~= rest.skip(k - 1));
        }
    } else {
        lemma_spans_after(p, e + 1, k);
    }
}

spec fn shift(v: Seq<(int, int)>, s: int) -> Seq<(int, int)> {
    Seq::new(v.len(), |k: int| (v[k].0 - s, v[k].1 - s))
}

proof fn lemma_spans_shift(p: Seq<char>, s: int, t: int, i: int)
    requires
        0 <= s <= t <= p.len(),
        0 <= i,
        s + i <= t + 1,
        t < p.len() ==> p[t] == '/',
        spans_from(p, t + 1).len() == 0,
        p.subrange(s, segment_end(p, s)) != seq!['.'] || s == 0,
    ensures
        spans_from(p.subrange(s, t), i) == shift(spans_from(p, s + i), s),
    decreases t + 1 - i,
{
    let q = p.subrange(s, t);
    if s + i >= t {
        if s + i == t && t < p.len() {
            lemma_segment_end_is(p, t, t);
        }
        assert(spans_from(q, i) =~= shift(spans_from(p, s + i), s));
    } else {
        lemma_segment_end(p, s + i);
        let e = segment_end(p, s + i);
        assert(e <= t);
        assert forall|j: int| i <= j < e - s implies q[j] != '/' by {
            assert(q[j] == p[s + j]);
        }
        if e < t {
            assert(q[e - s] == p[e]);
        }
        lemma_segment_end_is(q, i, e - s);
        assert(q.subrange(i, e - s) =~= p.subrange(s + i, e));
        lemma_spans_shift(p, s, t, e + 1 - s);
        assert(spans_from(q, i) =~= shift(spans_from(p, s + i), s));
    }
}

/// Cutting a path where one of its components ends keeps the components up to
/// there.
pub proof fn lemma_cut(p: Seq<char>, k: int)
    requires
        0 <= k < spans(p).len(),
    ensures
        ({
            let a = p.take(spans(p)[k].1);
            &&& spans(a) == spans(p).take(k + 1)
            &&& a.len() == spans(p)[k].1
            &&& a.len() > 0
            &&& tail_end(a) == a.len()
            &&& root_of(a) == root_of(p)
            &&& components(a) == components(p).take(root_of(p).len() + k + 1)
        }),
{
    lemma_spans(p, 0);
    lemma_spans_cut(p, 0, k);
    let c = spans_from(p, 0)[k].1;
    let a = p.take(c);
    assert(a[0] == p[0]);
    assert forall|j: int| 0 <= j <= k implies #[trigger] a.subrange(spans(a)[j].0, spans(a)[j].1)
        == p.subrange(spans(p)[j].0, spans(p)[j].1) by {
        assert(spans(a)[j] == spans_from(p, 0)[j]);
        if j < k {
            assert(spans_from(p, 0)[j].1 < spans_from(p, 0)[k].0);
        }
        assert(a.subrange(spans(a)[j].0, spans(a)[j].1) =~= p.subrange(
            spans(p)[j].0,
            spans(p)[j].1,
        ));
    }
    assert(components(a) =~= components(p).take(root_of(p).len() + k + 1));
}

/// Everything above an ancestor of a path is above the path.
pub proof fn law_ancestors_nest(p: Seq<char>, a: Seq<char>, b: Seq<char>)
    requires
        ancestors(p).contains(a),
        ancestors(a).contains(b),
    ensures
        ancestors(p).contains(b),
{
    lemma_spans(p, 0);
    let n = spans(p).len();
    let i = choose|i: int| 0 <= i < ancestors(p).len() && ancestors(p)[i] == a;
    if i == 0 {
        assert(a == p);
    } else if i < n {
        let k = n - 1 - i;
        assert(a == p.take(spans(p)[k].1));
        lemma_cut(p, k);
        let j = choose|j: int| 0 <= j < ancestors(a).len() && ancestors(a)[j] == b;
        if j == 0 {
            assert(b == a);
        } else if j < k + 1 {
            let l = k - j;
            assert(b == a.take(spans(a)[l].1));
            assert(spans(a)[l] == spans_from(p, 0)[l]);
            assert(spans_from(p, 0)[l].1 < spans_from(p, 0)[k].0);
            assert(b =~= p.take(spans(p)[l].1));
            assert(ancestors(p)[n - 1 - l] == b);
        } else {
            assert(root_of(a).len() == 1);
            assert(b == seq!['/']);
            assert(ancestors(p)[n as int] == b);
        }
    } else {
        assert(root_of(p).len() == 1);
        assert(a == seq!['/']);
        lemma_root_has_no_spans();
        assert(b == a);
    }
}

/// The root has no components but itself.
pub proof fn lemma_root_has_no_spans()
    ensures
        spans(seq!['/']).len() == 0,
        components(seq!['/']) == seq![seq!['/']],
{
    let root = seq!['/'];
    lemma_segment_end_is(root, 0, 0);
    assert(spans_from(root, 1) =~= Seq::<(int, int)>::empty());
    assert(components(root) =~= seq![seq!['/']]);
}

/// What is below a base stays an ancestor below that base: for an ancestor
/// `a` of `p` that lies within `base`, the rest of `a` is empty or an ancestor
/// of the rest of `p`.
pub proof fn law_relative_ancestors_nest(p: Seq<char>, a: Seq<char>, base: Seq<char>)
    requires
        ancestors(p).contains(a),
        within(a, base),
    ensures
        within(p, base),
        relative_to(a, base)->0.len() == 0 || a == p || ancestors(relative_to(p, base)->0).contains(
            relative_to(a, base)->0,
        ),
{
    lemma_spans(p, 0);
    let n = spans(p).len();
    let m = components(base).len() as int;
    let i = choose|i: int| 0 <= i < ancestors(p).len() && ancestors(p)[i] == a;
    if i == 0 {
        assert(a == p);
    } else if i < n {
        let k = n - 1 - i;
        let c = spans(p)[k].1;
        assert(a == p.take(c));
        lemma_cut(p, k);
        assert(components(a).is_prefix_of(components(p)));
        assert(components(base) =~= components(p).subrange(0, m));
        lemma_rest_nests(p, k, m);
    } else {
        assert(a == seq!['/']);
        lemma_root_has_no_spans();
        assert(components(p)[0] == seq!['/']);
        assert(components(base) =~= components(p).subrange(0, m));
        if m == 0 {
            lemma_rest_at_root(p);
            assert(a.take(tail_end(a)) =~= a);
        }
    }
}

proof fn lemma_tail(p: Seq<char>)
    requires
        spans(p).len() > 0,
    ensures
        0 < tail_end(p) <= p.len(),
        tail_end(p) < p.len() ==> p[tail_end(p)] == '/',
        spans_from(p, tail_end(p) + 1).len() == 0,
        tail_end(p) == spans(p).last().1,
{
    lemma_spans(p, 0);
    let n = spans(p).len();
    assert(spans(p).last() == spans_from(p, 0)[n - 1]);
    lemma_spans_after(p, 0, n - 1);
}

proof fn lemma_rest_at_root(p: Seq<char>)
    requires
        spans(p).len() > 0,
        is_absolute(p),
    ensures
        ancestors(after_components(p, 0)).contains(seq!['/']),
{
    let n = spans(p).len();
    lemma_tail(p);
    lemma_cut(p, n - 1);
    let r = p.take(tail_end(p));
    assert(spans(p).take(n as int) =~= spans(p));
    assert(ancestors(r)[n as int] == seq!['/']);
}

proof fn lemma_rest_nests(p: Seq<char>, k: int, m: int)
    requires
        0 <= k < spans(p).len() - 1,
        0 <= m <= root_of(p).len() + k + 1,
    ensures
        ({
            let rest = after_components(p.take(spans(p)[k].1), m);
            rest.len() == 0 || ancestors(after_components(p, m)).contains(rest)
        }),
{
    let n = spans(p).len() as int;
    let c = spans(p)[k].1;
    let a = p.take(c);
    lemma_spans(p, 0);
    lemma_cut(p, k);
    lemma_tail(p);
    let t = tail_end(p);
    assert(spans_from(p, 0)[k].1 < spans_from(p, 0)[n - 1].0);
    if m == 0 {
        lemma_cut(p, n - 1);
        let r = p.take(t);
        assert(spans(p).take(n) =~= spans(p));
        assert(after_components(a, 0) =~= a);
        assert(r.take(c) =~= a);
        assert(ancestors(r)[n - 1 - k] == a);
    } else {
        let j = m - root_of(p).len();
        if 0 <= j <= k {
            let s = spans(p)[j].0;
            assert(spans_from(p, 0)[j] == spans(p)[j]);
            lemma_spans_after(p, 0, j);
            let r = p.subrange(s, t);
            assert(after_components(p, m) == r);
            assert(spans(a)[j] == spans(p)[j]);
            assert(after_components(a, m) =~= p.subrange(s, c));
            lemma_segment_end_is(p, s, spans(p)[j].1);
            lemma_spans_shift(p, s, t, 0);
            assert(spans(r) == shift(spans(p).skip(j), s));
            assert(spans(r).len() == n - j);
            assert(spans(r)[k - j] == (spans(p)[k].0 - s, c - s));
            assert(r.take(c - s) =~= p.subrange(s, c));
            if j < n - 1 {
                assert(spans_from(p, 0)[j].1 < spans_from(p, 0)[n - 1].0);
            }
            assert(r.len() > 0);
            assert(ancestors(r)[n - j - 1 - (k - j)] == r.take(spans(r)[k - j].1));
        } else {
            assert(after_components(a, m).len() == 0);
        }
    }
}

/// What is below a base has the components that follow those of the base.
pub proof fn law_the_rest_has_the_other_components(p: Seq<char>, base: Seq<char>)
    requires
        within(p, base),
    ensures
        components(relative_to(p, base)->0) == components(p).skip(components(base).len() as int),
{
    let m = components(base).len() as int;
    let n = spans(p).len() as int;
    let j = m - root_of(p).len();
    let r = after_components(p, m);
    lemma_spans(p, 0);
    assert(components(p).len() == root_of(p).len() + n);
    if m == 0 {
        assert(components(p).skip(0) =~= components(p));
        if n > 0 {
            lemma_tail(p);
            lemma_cut(p, n - 1);
            assert(components(p).take(root_of(p).len() + n) =~= components(p));
        } else if is_absolute(p) {
            assert(r =~= seq!['/']);
            lemma_root_has_no_spans();
            assert(components(p) =~= seq![seq!['/']]);
        } else {
            assert(r =~= Seq::<char>::empty());
            assert(components(r) =~= components(p));
        }
    } else if j < n {
        lemma_tail(p);
        let t = tail_end(p);
        let s = spans(p)[j].0;
        assert(spans_from(p, 0)[j] == spans(p)[j]);
        lemma_spans_after(p, 0, j);
        lemma_segment_end_is(p, s, spans(p)[j].1);
        if j < n - 1 {
            assert(spans_from(p, 0)[j].1 < spans_from(p, 0)[n - 1].0);
        } else {
            assert(spans_from(p, 0)[n - 1] == spans(p).last());
        }
        lemma_spans_shift(p, s, t, 0);
        assert(r == p.subrange(s, t));
        assert(r[0] == p[s]);
        assert(spans(r) == shift(spans(p).skip(j), s));
        assert forall|k: int| 0 <= k < n - j implies #[trigger] r.subrange(
            spans(r)[k].0,
            spans(r)[k].1,
        ) == p.subrange(spans(p)[j + k].0, spans(p)[j + k].1) by {
            assert(spans_from(p, 0)[j + k] == spans(p)[j + k]);
            assert(spans(p).skip(j)[k] == spans(p)[j + k]);
            if k > 0 {
                assert(spans_from(p, 0)[j].1 < spans_from(p, 0)[j + k].0);
            }
            if j + k < n - 1 {
                assert(spans_from(p, 0)[j + k].1 < spans_from(p, 0)[n - 1].0);
            }
            assert(r.subrange(spans(r)[k].0, spans(r)[k].1) =~= p.subrange(
                spans(p)[j + k].0,
                spans(p)[j + k].1,
            ));
        }
        assert(components(r) =~= components(p).skip(m));
    } else {
        assert(r =~= Seq::<char>::empty());
        assert(components(r) =~= components(p).skip(m));
    }
}

/// Behind the first component of a path neither the root nor a `.` follows, so
/// what does not lead upward there is a name.
pub proof fn lemma_later_components(p: Seq<char>, k: int)
    requires
        0 < k < components(p).len(),
        components(p)[k] != seq!['.', '.'],
    ensures
        is_name(components(p)[k]),
{
    lemma_spans(p, 0);
    let lead = root_of(p).len();
    let part = components(p)[k];
    let span = spans_from(p, 0)[k - lead];
    assert(part == p.subrange(span.0, span.1));
    if lead == 0 {
        assert(spans_from(p, 0)[0].1 < span.0);
    } else if span.0 == 0 {
        assert(p[span.0] == '/');
    }
    assert(forall|i: int| 0 <= i < part.len() ==> part[i] == p[span.0 + i]);
    if part == seq!['/'] {
        assert(part[0] == '/');
    }
}

/// Once a Windows path is in form no other separator is left in it, and putting
/// it in form again changes nothing; unless it can only be written otherwise.
pub proof fn law_slashed_paths_are_in_form(p: Seq<char>)
    requires
        !is_verbatim(without_marker(p)),
    ensures
        !slashed_text(p, true).contains('\\'),
        slashed_text(slashed_text(p, true), true) == slashed_text(p, true),
{
    let once = slashed_text(p, true);
    assert forall|i: int| 0 <= i < once.len() implies once[i] != '\\' by {}
    assert(!is_verbatim(once));
    assert(slashed_text(once, true) =~= once);
}

/* ------------------------------------------------------------------ spelling */

/// A path that holds nothing has no components, the root has itself, and a
/// relative path may begin with a `.`.
pub proof fn law_the_shortest_paths()
    ensures
        components(Seq::<char>::empty()) == Seq::<Seq<char>>::empty(),
        components(seq!['/']) == seq![seq!['/']],
        components(seq!['.']) == seq![seq!['.']],
{
    assert(components(Seq::<char>::empty()) =~= Seq::<Seq<char>>::empty());
    lemma_root_has_no_spans();
    let dot = seq!['.'];
    lemma_segment_end_is(dot, 0, 1);
    assert(spans_from(dot, 2) =~= Seq::<(int, int)>::empty());
    assert(spans(dot) =~= seq![(0int, 1int)]);
    assert(dot.subrange(0, 1) =~= dot);
    assert(components(dot) =~= seq![dot]);
}

proof fn lemma_spans_ignore(p: Seq<char>, tail: Seq<char>, i: int)
    requires
        tail == seq!['/'] || tail == seq!['/', '.'],
        0 <= i <= p.len() + 1,
    ensures
        spans_from(p + tail, i) == spans_from(p, i),
    decreases p.len() + 1 - i,
{
    let q = p + tail;
    let n = p.len() as int;
    if i == n + 1 {
        assert(spans_from(p, i) =~= Seq::<(int, int)>::empty());
        if tail.len() == 2 {
            assert(q[n + 1] == '.');
            lemma_segment_end_is(q, i, i + 1);
            assert(q.subrange(i, i + 1) =~= seq!['.']);
            assert(spans_from(q, i + 2) =~= Seq::<(int, int)>::empty());
        }
        assert(spans_from(q, i) =~= Seq::<(int, int)>::empty());
    } else if i == n {
        assert(q[n] == '/');
        lemma_segment_end_is(q, i, i);
        lemma_spans_ignore(p, tail, i + 1);
        assert(spans_from(p, i) =~= Seq::<(int, int)>::empty());
    } else {
        lemma_segment_end(p, i);
        let e = segment_end(p, i);
        assert forall|j: int| i <= j < e implies q[j] != '/' by {
            assert(q[j] == p[j]);
        }
        if e < n {
            assert(q[e] == p[e]);
        } else {
            assert(q[e] == '/');
        }
        lemma_segment_end_is(q, i, e);
        assert(q.subrange(i, e) =~= p.subrange(i, e));
        lemma_spans_ignore(p, tail, e + 1);
    }
}

/// A separator at the end of a path, or a `.` behind one, changes nothing about
/// its components.
pub proof fn law_separators_and_dots_name_nothing(p: Seq<char>)
    requires
        p.len() > 0,
    ensures
        components(p + seq!['/']) == components(p),
        components(p + seq!['/', '.']) == components(p),
{
    lemma_same_components(p, seq!['/']);
    lemma_same_components(p, seq!['/', '.']);
}

proof fn lemma_same_components(p: Seq<char>, tail: Seq<char>)
    requires
        p.len() > 0,
        tail == seq!['/'] || tail == seq!['/', '.'],
    ensures
        components(p + tail) == components(p),
{
    let q = p + tail;
    lemma_spans_ignore(p, tail, 0);
    lemma_spans(p, 0);
    assert(q[0] == p[0]);
    assert forall|k: int| 0 <= k < spans(p).len() implies #[trigger] q.subrange(
        spans(q)[k].0,
        spans(q)[k].1,
    ) == p.subrange(spans(p)[k].0, spans(p)[k].1) by {
        assert(spans(q)[k] == spans_from(p, 0)[k]);
        assert(q.subrange(spans(q)[k].0, spans(q)[k].1) =~= p.subrange(
            spans(p)[k].0,
            spans(p)[k].1,
        ));
    }
    assert(components(q) =~= components(p));
}

/// What stands above a path are its first components, one fewer each time, down
/// to the first.
pub proof fn law_ancestors_are_the_first_components(p: Seq<char>)
    ensures
        ancestors(p).len() == components(p).len(),
        forall|k: int|
            0 <= k < ancestors(p).len() ==> components(#[trigger] ancestors(p)[k]) == components(
                p,
            ).take(components(p).len() - k),
{
    lemma_spans(p, 0);
    let n = spans(p).len() as int;
    let lead = root_of(p).len() as int;
    if p.len() > 0 && n == 0 {
        if !is_absolute(p) {
            lemma_segment_end(p, 0);
            let e = segment_end(p, 0);
            assert(is_component(p, 0, e));
            assert(spans(p).len() > 0);
        }
    } else if p.len() == 0 {
        assert(components(p) =~= Seq::<Seq<char>>::empty());
    }
    assert forall|k: int| 0 <= k < ancestors(p).len() implies components(
        #[trigger] ancestors(p)[k],
    ) == components(p).take(components(p).len() - k) by {
        if k == 0 {
            assert(components(p).take(components(p).len() as int) =~= components(p));
        } else if k < n {
            lemma_cut(p, n - 1 - k);
        } else {
            lemma_root_has_no_spans();
            assert(components(p).take(1) =~= seq![seq!['/']]);
        }
    }
}

/// What is joined below a base lies within it, and what is left below the base
/// are the names that were joined.
pub proof fn law_what_is_joined_lies_below(base: Seq<char>, part: Seq<char>)
    requires
        is_part(part),
    ensures
        within(join_path(base, part), base),
        components(relative_to(join_path(base, part), base)->0) == seq![part],
{
    let full = join_path(base, part);
    law_join_adds_a_component(base, part);
    assert(components(full).subrange(0, components(base).len() as int) =~= components(base));
    law_the_rest_has_the_other_components(full, base);
    assert(components(full).skip(components(base).len() as int) =~= seq![part]);
}

/// What is joined onto a path follows it behind one slash, or stands alone where
/// it begins with one itself.
pub proof fn law_joining_puts_a_slash_between(base: Seq<char>, rest: Seq<char>)
    ensures
        rest.len() > 0 && rest[0] == '/' ==> join_path(base, rest) == rest,
        !(rest.len() > 0 && rest[0] == '/') && base.len() > 0 && base.last() != '/' ==> join_path(
            base,
            rest,
        ) == base + seq!['/'] + rest,
        !(rest.len() > 0 && rest[0] == '/') && base.len() > 0 && base.last() == '/' ==> join_path(
            base,
            rest,
        ) == base + rest,
        base.len() == 0 ==> join_path(base, rest) == rest,
{
    assert(base.push('/') + rest =~= base + seq!['/'] + rest);
    if base.len() == 0 {
        assert(base + rest =~= rest);
    }
}

/// What stands above a path is how the path begins: the path itself, then ever
/// less of it, each up to the end of a name, and at last the root.
pub proof fn law_ancestors_are_how_a_path_begins(p: Seq<char>, k: int)
    requires
        0 <= k < ancestors(p).len(),
    ensures
        k == 0 ==> ancestors(p)[k] == p,
        ancestors(p)[k].is_prefix_of(p),
        k > 0 ==> ancestors(p)[k].len() < ancestors(p)[k - 1].len(),
        k > 0 ==> ancestors(p)[k] == seq!['/'] || ancestors(p)[k].last() != '/',
{
    lemma_spans(p, 0);
    let n = spans(p).len() as int;
    let all = ancestors(p);
    assert(forall|j: int| 1 <= j < n ==> #[trigger] all[j] == p.take(spans(p)[n - 1 - j].1));
    if 0 < k < n {
        let (a, b) = spans_from(p, 0)[n - 1 - k];
        assert(all[k].last() == p[b - 1]);
        if k > 1 {
            let after = spans_from(p, 0)[n - k];
            assert(all[k - 1] == p.take(spans(p)[n - k].1));
            assert(b < after.0);
        } else {
            let after = spans_from(p, 0)[n - 1];
            assert(b < after.0);
        }
    } else if k > 0 {
        assert(all[k] == seq!['/']);
        assert(p[0] == '/');
        let first = spans_from(p, 0)[0];
        if n > 1 {
            assert(all[k - 1] == p.take(spans(p)[0].1));
        }
        assert(first.0 > 0) by {
            if first.0 == 0 {
                assert(p[first.0] != '/');
            }
        }
    }
}

/// What is left of a path below a base stands in the path as it is.
pub proof fn law_the_rest_stands_in_the_path(p: Seq<char>, base: Seq<char>)
    requires
        within(p, base),
    ensures
        exists|i: int, j: int|
            0 <= i <= j <= p.len() && relative_to(p, base)->0 == #[trigger] p.subrange(i, j),
{
    lemma_spans(p, 0);
    let n = components(base).len() as int;
    let rest = after_components(p, n);
    let skipped = n - root_of(p).len();
    if spans(p).len() > 0 {
        let last = spans_from(p, 0)[spans(p).len() - 1];
        assert(0 <= last.0 < last.1 <= p.len());
    }
    if n <= 0 {
        assert(rest =~= p.subrange(0, tail_end(p)));
    } else if 0 <= skipped < spans(p).len() {
        let first = spans_from(p, 0)[skipped];
        if skipped < spans(p).len() - 1 {
            assert(first.1 < spans_from(p, 0)[spans(p).len() - 1].0);
        }
        assert(rest == p.subrange(first.0, tail_end(p)));
    } else {
        assert(rest =~= p.subrange(0, 0));
    }
}

/* ------------------------------------------------------------------- separators */

/// Where a system separates names with `/` alone, a path stays as it is; where it
/// does so with `\` too, each of those becomes a `/` and all else stays.
pub proof fn law_backslashes_become_slashes(p: Seq<char>, i: int)
    requires
        0 <= i < p.len(),
        p.len() < 4 || p[0] != '\\' || p[1] != '\\' || p[2] != '?' || p[3] != '\\',
    ensures
        slashed_text(p, false) == p,
        slashed_text(p, true).len() == p.len(),
        slashed_text(p, true)[i] == if p[i] == '\\' {
            '/'
        } else {
            p[i]
        },
{
}

/// The marker of a verbatim path goes, where the path says the same without it: a
/// drive is left as it is, and a share begins with two slashes again.
pub proof fn law_the_marker_of_verbatim_paths_goes(letter: char, rest: Seq<char>)
    requires
        letter != '\\',
        letter != 'U',
        rest.len() > 0 ==> rest[0] != '?' && rest[0] != '\\',
    ensures
        ({
            let marker = seq!['\\', '\\', '?', '\\'];
            let drive = seq![letter, ':', '\\'] + rest;
            let share = seq!['\\', '\\'] + rest;
            let unc = seq!['U', 'N', 'C', '\\'] + rest;
            &&& slashed_text(marker + drive, true) == slashed_text(drive, true)
            &&& slashed_text(marker + unc, true) == slashed_text(share, true)
            &&& slashed_text(marker + drive, false) == marker + drive
        }),
{
    let marker = seq!['\\', '\\', '?', '\\'];
    let drive = seq![letter, ':', '\\'] + rest;
    let share = seq!['\\', '\\'] + rest;
    let unc = seq!['U', 'N', 'C', '\\'] + rest;
    let a = marker + drive;
    let b = marker + unc;
    assert(a[4] == letter && a[5] == ':');
    assert(a.skip(4) =~= drive);
    assert(drive[0] == letter);
    assert(b[4] == 'U' && b[5] == 'N' && b[6] == 'C' && b[7] == '\\');
    assert(b.skip(8) =~= rest);
    assert(share.len() > 2 ==> share[2] == rest[0]);
    assert(slashed_text(a, true) =~= slashed_text(drive, true));
    assert(slashed_text(b, true) =~= slashed_text(share, true));
}

/// Any other verbatim path is left as it is.
pub proof fn law_other_verbatim_paths_stay(p: Seq<char>)
    requires
        p.len() >= 4,
        p[0] == '\\' && p[1] == '\\' && p[2] == '?' && p[3] == '\\',
        p.len() < 6 || p[5] != ':',
        p.len() < 8 || p[4] != 'U' || p[5] != 'N' || p[6] != 'C' || p[7] != '\\',
    ensures
        slashed_text(p, true) == p,
{
}

/// A path depends on where it is looked up from unless it begins with a slash or,
/// where there are drives, with a letter, a colon and a slash.
pub proof fn law_which_paths_stand_alone(p: Seq<char>, drives: bool)
    ensures
        stands_alone(p, drives) == (p.len() > 0 && p[0] == '/' || drives && p.len() > 2 && (
        'a' <= p[0] <= 'z' || 'A' <= p[0] <= 'Z') && p[1] == ':' && p[2] == '/'),
{
}

} // verus!
