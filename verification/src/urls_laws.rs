//! What holds of every path that a request target leads to.

use vstd::prelude::*;

use crate::text::{join, lemma_split_append, lemma_split_pieces, split};
use crate::urls::{
    assembled, decoded, keep_segment, kept_segments, normalised, query_start, target_path,
    without_query,
};

verus! {

/// A segment that leads one level down: not empty, not a dot segment, and free
/// of separators and of what no file name may hold.
pub open spec fn is_ordinary(segment: Seq<char>) -> bool {
    &&& segment.len() > 0
    &&& segment != seq!['.']
    &&& segment != seq!['.', '.']
    &&& !segment.contains('/')
    &&& !segment.contains('\0')
    &&& !segment.contains('\\')
}

/// Whether every segment of a list leads one level down.
pub open spec fn all_ordinary(segments: Seq<Seq<char>>) -> bool {
    forall|k: int| 0 <= k < segments.len() ==> is_ordinary(#[trigger] segments[k])
}

proof fn lemma_kept_ordinary(segments: Seq<Seq<char>>)
    requires
        forall|k: int| 0 <= k < segments.len() ==> !(#[trigger] segments[k]).contains('/'),
        kept_segments(segments) is Some,
    ensures
        all_ordinary(kept_segments(segments)->0),
    decreases segments.len(),
{
    if segments.len() > 0 {
        let front = segments.drop_last();
        assert forall|k: int| 0 <= k < front.len() implies !(#[trigger] front[k]).contains('/') by {
            assert(front[k] == segments[k]);
        }
        lemma_kept_ordinary(front);
        let kept = kept_segments(front)->0;
        let now = kept_segments(segments)->0;
        assert(!segments[segments.len() - 1].contains('/'));
        assert forall|k: int| 0 <= k < now.len() implies is_ordinary(#[trigger] now[k]) by {
            if k < kept.len() {
                assert(now[k] == kept[k]);
            }
        }
    }
}

/// Ordinary segments are all kept.
proof fn lemma_ordinary_kept(lead: Seq<Seq<char>>, segments: Seq<Seq<char>>)
    requires
        all_ordinary(segments),
        kept_segments(lead) is Some,
    ensures
        kept_segments(lead + segments) == Some(kept_segments(lead)->0 + segments),
    decreases segments.len(),
{
    let kept = kept_segments(lead)->0;
    if segments.len() == 0 {
        assert(lead + segments =~= lead);
        assert(kept + segments =~= kept);
    } else {
        let front = segments.drop_last();
        assert(all_ordinary(front)) by {
            assert forall|k: int| 0 <= k < front.len() implies is_ordinary(#[trigger] front[k]) by {
                assert(front[k] == segments[k]);
            }
        }
        lemma_ordinary_kept(lead, front);
        assert((lead + segments).drop_last() =~= lead + front);
        assert((lead + segments).last() == segments[segments.len() - 1]);
        assert((kept + front).push(segments.last()) =~= kept + segments);
    }
}

/// The pieces of a path made of ordinary segments are those segments, after
/// the empty piece in front of the first `/`.
pub proof fn lemma_split_joined(segments: Seq<Seq<char>>)
    requires
        all_ordinary(segments),
        segments.len() > 0,
    ensures
        split(seq!['/'] + join(segments, seq!['/']), '/') == seq![Seq::<char>::empty()] + segments,
    decreases segments.len(),
{
    let sep = seq!['/'];
    let last = segments[segments.len() - 1];
    assert(is_ordinary(last));
    assert forall|i: int| 0 <= i < last.len() implies last[i] != '/' by {
        if last[i] == '/' {
            assert(last.contains('/'));
        }
    }
    if segments.len() == 1 {
        let none = Seq::<char>::empty();
        lemma_split_append(none, '/', last);
        assert(sep + join(segments, sep) =~= none.push('/') + last);
        assert(split(none, '/') =~= seq![none]);
        assert(split(none, '/').push(last) =~= seq![none] + segments);
    } else {
        let front = segments.drop_last();
        assert(all_ordinary(front)) by {
            assert forall|k: int| 0 <= k < front.len() implies is_ordinary(#[trigger] front[k]) by {
                assert(front[k] == segments[k]);
            }
        }
        lemma_split_joined(front);
        let before = sep + join(front, sep);
        lemma_split_append(before, '/', last);
        assert(sep + join(segments, sep) =~= before.push('/') + last);
        assert((seq![Seq::<char>::empty()] + front).push(last) =~= seq![Seq::<char>::empty()]
            + segments);
    }
}

proof fn lemma_joined_ends(segments: Seq<Seq<char>>)
    requires
        all_ordinary(segments),
        segments.len() > 0,
    ensures
        join(segments, seq!['/']).len() > 0,
        join(segments, seq!['/']).last() != '/',
{
    let last = segments[segments.len() - 1];
    assert(is_ordinary(last));
    assert(last.contains(last.last())) by {
        assert(last[last.len() - 1] == last.last());
    }
    assert(join(segments, seq!['/']).last() == last.last());
}

/// A path of ordinary segments, with or without a trailing slash, is its own
/// normal form.
pub proof fn lemma_assembled_is_normal(segments: Seq<Seq<char>>, trailing: bool)
    requires
        all_ordinary(segments),
    ensures
        normalised(assembled(segments, trailing)) == Some(assembled(segments, trailing)),
{
    let sep = seq!['/'];
    let none = Seq::<char>::empty();
    let path = assembled(segments, trailing);
    let lead = seq![none];
    assert(kept_segments(lead) == Some(Seq::<Seq<char>>::empty())) by {
        reveal_with_fuel(kept_segments, 2);
        assert(lead.drop_last() =~= Seq::<Seq<char>>::empty());
        assert(lead.last() == none);
    }
    if segments.len() == 0 {
        assert(path =~= sep);
        lemma_split_append(none, '/', none);
        assert(sep =~= none.push('/') + none);
        assert(split(none, '/') =~= lead);
        let pieces = split(path, '/');
        assert(pieces =~= lead.push(none));
        assert(pieces.drop_last() =~= lead);
        assert(segments =~= Seq::<Seq<char>>::empty());
    } else {
        lemma_split_joined(segments);
        lemma_joined_ends(segments);
        lemma_ordinary_kept(lead, segments);
        assert(Seq::<Seq<char>>::empty() + segments =~= segments);
        let plain = sep + join(segments, sep);
        assert(plain.last() == join(segments, sep).last());
        if trailing {
            lemma_split_append(plain, '/', none);
            assert(path =~= plain.push('/') + none);
            let pieces = split(path, '/');
            assert(pieces.drop_last() =~= lead + segments);
            assert(pieces.last() == none);
        } else {
            assert(path =~= plain);
        }
    }
}

/// The normal form of a path is made of ordinary segments: it begins at the
/// root, never leads upward and holds neither NUL nor backslash.
pub proof fn law_normal_form_stays_under_the_root(s: Seq<char>)
    requires
        normalised(s) is Some,
    ensures
        exists|segments: Seq<Seq<char>>, trailing: bool|
            all_ordinary(segments) && normalised(s) == Some(#[trigger] assembled(segments, trailing)),
{
    lemma_split_pieces(s, '/');
    let pieces = split(s, '/');
    assert forall|k: int| 0 <= k < pieces.len() implies !(#[trigger] pieces[k]).contains('/') by {
        assert forall|i: int| 0 <= i < pieces[k].len() implies pieces[k][i] != '/' by {
            assert(split(s, '/')[k][i] != '/');
        }
    }
    lemma_kept_ordinary(pieces);
    let segments = kept_segments(pieces)->0;
    let trailing = s.len() > 1 && s.last() == '/';
    assert(normalised(s) == Some(assembled(segments, trailing)));
}

/// Bringing a path into normal form twice changes nothing more.
pub proof fn law_normal_form_is_stable(s: Seq<char>)
    requires
        normalised(s) is Some,
    ensures
        normalised(normalised(s)->0) == normalised(s),
{
    law_normal_form_stays_under_the_root(s);
    let (segments, trailing) = choose|segments: Seq<Seq<char>>, trailing: bool|
        all_ordinary(segments) && normalised(s) == Some(#[trigger] assembled(segments, trailing));
    lemma_assembled_is_normal(segments, trailing);
}

/// What a target asks for depends on its path alone: a query or a fragment
/// behind it changes nothing.
pub proof fn law_query_is_ignored(path: Seq<char>, rest: Seq<char>)
    requires
        !path.contains('?'),
        !path.contains('#'),
        rest.len() > 0,
        rest[0] == '?' || rest[0] == '#',
    ensures
        target_path(path + rest) == target_path(path),
{
    lemma_query_start(path, rest, 0);
    lemma_query_start(path, Seq::empty(), 0);
    assert(path + Seq::<char>::empty() =~= path);
    assert((path + rest).take(path.len() as int) =~= path.take(path.len() as int));
}

proof fn lemma_query_start(path: Seq<char>, rest: Seq<char>, from: int)
    requires
        !path.contains('?'),
        !path.contains('#'),
        rest.len() > 0 ==> rest[0] == '?' || rest[0] == '#',
        0 <= from <= path.len(),
    ensures
        query_start(path + rest, from) == path.len(),
    decreases path.len() - from,
{
    if from < path.len() {
        assert((path + rest)[from] == path[from]);
        assert(path.contains(path[from]));
        lemma_query_start(path, rest, from + 1);
    }
}

/// A way up out of the root is refused however its dots are written: what
/// counts is what the target decodes to.
pub proof fn law_encoded_traversal_is_refused(target: Seq<char>, rest: Seq<char>)
    requires
        decoded(without_query(target)) == Some(seq!['/', '.', '.', '/'] + rest) || decoded(
            without_query(target),
        ) == Some(seq!['/', '.', '.']) && rest.len() == 0,
    ensures
        target_path(target) is None,
{
    let none = Seq::<char>::empty();
    let up = seq!['.', '.'];
    let head = seq!['/', '.', '.'];
    lemma_split_append(none, '/', up);
    assert(none.push('/') + up =~= head);
    assert(split(none, '/') =~= seq![none]);
    let first = seq![none, up];
    assert(split(head, '/') =~= first);
    assert(kept_segments(first) is None) by {
        reveal_with_fuel(kept_segments, 3);
        assert(first.drop_last() =~= seq![none]);
        assert(seq![none].drop_last() =~= Seq::<Seq<char>>::empty());
        assert(kept_segments(seq![none]) == keep_segment(Seq::<Seq<char>>::empty(), none));
        assert(up[1] == '.' && up.len() == 2);
        assert(seq!['.'].len() == 1);
        assert(first.last() == up);
    }
    let s = decoded(without_query(target))->0;
    if s != head {
        lemma_refused_prefix(head, rest);
        assert(s =~= head.push('/') + rest);
    }
}

proof fn lemma_refused_prefix(head: Seq<char>, rest: Seq<char>)
    requires
        kept_segments(split(head, '/')) is None,
    ensures
        kept_segments(split(head.push('/') + rest, '/')) is None,
        split(head.push('/') + rest, '/').len() > split(head, '/').len(),
        split(head.push('/') + rest, '/').take(split(head, '/').len() as int) == split(head, '/'),
    decreases rest.len(),
{
    let full = head.push('/') + rest;
    let old_pieces = split(head, '/');
    let pieces = split(full, '/');
    if rest.len() == 0 {
        lemma_split_append(head, '/', rest);
        assert(pieces.drop_last() =~= old_pieces);
        assert(pieces.take(old_pieces.len() as int) =~= old_pieces);
    } else {
        let shorter = rest.drop_last();
        lemma_refused_prefix(head, shorter);
        assert(full.drop_last() =~= head.push('/') + shorter);
        let before = split(head.push('/') + shorter, '/');
        assert(full.last() == rest.last());
        if rest.last() == '/' {
            assert(pieces.drop_last() =~= before);
        } else {
            assert(pieces.drop_last() =~= before.drop_last());
            lemma_before_refused(before, old_pieces.len() as int);
        }
        assert(pieces.take(old_pieces.len() as int) =~= before.take(old_pieces.len() as int));
    }
}

/// A list refused at a proper prefix is refused without its last segment too.
proof fn lemma_before_refused(segments: Seq<Seq<char>>, upto: int)
    requires
        0 <= upto < segments.len(),
        kept_segments(segments.take(upto)) is None,
    ensures
        kept_segments(segments.drop_last()) is None,
    decreases segments.len() - upto,
{
    if upto == segments.len() - 1 {
        assert(segments.take(upto) =~= segments.drop_last());
    } else {
        assert(segments.take(upto + 1).drop_last() =~= segments.take(upto));
        lemma_before_refused(segments, upto + 1);
    }
}

/* --------------------------------------------------------------- dot segments */

/// Splitting goes piece by piece: what stands on either side of a separator is
/// split on its own.
pub proof fn law_both_sides_of_a_separator_split_alone(a: Seq<char>, b: Seq<char>, sep: char)
    ensures
        split(a.push(sep) + b, sep) == split(a, sep) + split(b, sep),
    decreases b.len(),
{
    let full = a.push(sep) + b;
    lemma_split_pieces(a, sep);
    if b.len() == 0 {
        lemma_split_append(a, sep, b);
        assert(b =~= Seq::<char>::empty());
        assert(split(b, sep) =~= seq![b]);
        assert(split(a, sep).push(b) =~= split(a, sep) + split(b, sep));
    } else {
        let front = b.drop_last();
        law_both_sides_of_a_separator_split_alone(a, front, sep);
        lemma_split_pieces(front, sep);
        assert(full.drop_last() =~= a.push(sep) + front);
        assert(full.last() == b.last());
        let before = split(a, sep) + split(front, sep);
        if b.last() == sep {
            assert(before.push(Seq::empty()) =~= split(a, sep) + split(b, sep));
        } else {
            assert(before.last() == split(front, sep).last());
            assert(before.drop_last().push(before.last().push(b.last())) =~= split(a, sep) + split(
                b,
                sep,
            ));
        }
    }
}

proof fn lemma_kept_concat(a: Seq<Seq<char>>, x: Seq<Seq<char>>, y: Seq<Seq<char>>, b: Seq<Seq<char>>)
    requires
        kept_segments(a + x) == kept_segments(a + y),
    ensures
        kept_segments(a + x + b) == kept_segments(a + y + b),
    decreases b.len(),
{
    if b.len() == 0 {
        assert(a + x + b =~= a + x);
        assert(a + y + b =~= a + y);
    } else {
        lemma_kept_concat(a, x, y, b.drop_last());
        assert((a + x + b).drop_last() =~= a + x + b.drop_last());
        assert((a + y + b).drop_last() =~= a + y + b.drop_last());
        assert((a + x + b).last() == b.last());
        assert((a + y + b).last() == b.last());
    }
}

proof fn lemma_same_ends(a: Seq<char>, x: Seq<char>, b: Seq<char>, kept: Seq<Seq<char>>)
    requires
        a.len() == 0 || a[0] == '/',
    ensures
        ({
            let long = a.push('/') + x + seq!['/'] + b;
            let short = a.push('/') + b;
            assembled(kept, long.len() > 1 && long.last() == '/') == assembled(
                kept,
                short.len() > 1 && short.last() == '/',
            ) || (a.len() == 0 && b.len() == 0 && kept.len() > 0)
        }),
{
    let long = a.push('/') + x + seq!['/'] + b;
    let short = a.push('/') + b;
    if b.len() > 0 {
        assert(long.last() == b.last());
        assert(short.last() == b.last());
        assert(long.len() > 1 && short.len() > 1);
    } else {
        assert(long.last() == '/');
        assert(short.last() == '/');
        if a.len() == 0 && kept.len() == 0 {
            assert(join(kept, seq!['/']) =~= Seq::<char>::empty());
            assert((seq!['/'] + join(kept, seq!['/'])).last() == '/');
        }
    }
}

proof fn lemma_respelled(a: Seq<char>, x: Seq<char>, b: Seq<char>)
    requires
        a.len() == 0 || a[0] == '/',
        kept_segments(split(a, '/') + split(x, '/')) == kept_segments(split(a, '/')),
    ensures
        normalised(a.push('/') + x + seq!['/'] + b) == normalised(a.push('/') + b),
{
    let long = a.push('/') + x + seq!['/'] + b;
    let short = a.push('/') + b;
    law_both_sides_of_a_separator_split_alone(a, x, '/');
    law_both_sides_of_a_separator_split_alone(a.push('/') + x, b, '/');
    law_both_sides_of_a_separator_split_alone(a, b, '/');
    assert((a.push('/') + x).push('/') + b =~= long);
    let none = Seq::<Seq<char>>::empty();
    let p = split(a, '/');
    let q = split(x, '/');
    assert(p + none =~= p);
    lemma_kept_concat(p, q, none, split(b, '/'));
    assert(p + none + split(b, '/') =~= p + split(b, '/'));
    assert(long[0] == '/' && short[0] == '/') by {
        if a.len() > 0 {
            assert(long[0] == a[0] && short[0] == a[0]);
        }
    }
    if let Some(kept) = kept_segments(split(short, '/')) {
        lemma_same_ends(a, x, b, kept);
        if a.len() == 0 && b.len() == 0 {
            assert(short =~= seq!['/']);
            lemma_root_keeps_nothing();
        }
    }
}

proof fn lemma_root_keeps_nothing()
    ensures
        kept_segments(split(seq!['/'], '/')) == Some(Seq::<Seq<char>>::empty()),
{
    let none = Seq::<char>::empty();
    lemma_split_append(none, '/', none);
    assert(none.push('/') + none =~= seq!['/']);
    assert(split(none, '/') =~= seq![none]);
    let pieces = seq![none].push(none);
    assert(split(seq!['/'], '/') =~= pieces);
    reveal_with_fuel(kept_segments, 3);
    assert(pieces.drop_last() =~= seq![none]);
    assert(seq![none].drop_last() =~= Seq::<Seq<char>>::empty());
}

proof fn lemma_single_piece(x: Seq<char>)
    requires
        !x.contains('/'),
    ensures
        split(x, '/') == seq![x],
    decreases x.len(),
{
    if x.len() > 0 {
        let front = x.drop_last();
        assert forall|i: int| 0 <= i < front.len() implies front[i] != '/' by {
            assert(x.contains(x[i]));
        }
        lemma_single_piece(front);
        assert(x.contains(x[x.len() - 1]));
        assert(front.push(x.last()) =~= x);
        assert(seq![front].drop_last().push(x) =~= seq![x]);
    } else {
        assert(x =~= Seq::<char>::empty());
    }
}

/// An empty segment or a `.` in the middle of a path changes nothing.
pub proof fn law_empty_and_dot_segments_change_nothing(a: Seq<char>, b: Seq<char>)
    requires
        a.len() == 0 || a[0] == '/',
    ensures
        normalised(a + seq!['/', '/'] + b) == normalised(a + seq!['/'] + b),
        normalised(a + seq!['/', '.', '/'] + b) == normalised(a + seq!['/'] + b),
{
    let none = Seq::<char>::empty();
    let dot = seq!['.'];
    assert(!dot.contains('/')) by {
        assert(dot[0] == '.');
    }
    lemma_single_piece(none);
    lemma_single_piece(dot);
    let p = split(a, '/');
    assert((p + seq![none]).drop_last() =~= p);
    assert((p + seq![dot]).drop_last() =~= p);
    lemma_respelled(a, none, b);
    lemma_respelled(a, dot, b);
    assert(a.push('/') + none + seq!['/'] + b =~= a + seq!['/', '/'] + b);
    assert(a.push('/') + dot + seq!['/'] + b =~= a + seq!['/', '.', '/'] + b);
    assert(a.push('/') + b =~= a + seq!['/'] + b);
}

/// A `..` takes back the segment before it.
pub proof fn law_the_way_up_takes_a_segment_back(a: Seq<char>, segment: Seq<char>, b: Seq<char>)
    requires
        a.len() == 0 || a[0] == '/',
        is_ordinary(segment),
    ensures
        normalised(a + seq!['/'] + segment + seq!['/', '.', '.', '/'] + b) == normalised(
            a + seq!['/'] + b,
        ),
{
    let up = seq!['.', '.'];
    assert(!up.contains('/')) by {
        assert(up[0] == '.' && up[1] == '.');
    }
    lemma_single_piece(segment);
    lemma_single_piece(up);
    let x = segment + seq!['/'] + up;
    law_both_sides_of_a_separator_split_alone(segment, up, '/');
    assert(segment.push('/') + up =~= x);
    let p = split(a, '/');
    let pieces = seq![segment] + seq![up];
    assert(split(x, '/') == pieces);
    assert((p + pieces).drop_last() =~= p + seq![segment]);
    assert((p + pieces).last() == up);
    assert((p + seq![segment]).drop_last() =~= p);
    assert((p + seq![segment]).last() == segment);
    assert(up.len() == 2 && seq!['.'].len() == 1);
    let one = p + seq![segment];
    match kept_segments(p) {
        Some(kept) => {
            assert(keep_segment(kept, segment) == Some(kept.push(segment)));
            assert(kept_segments(one) == Some(kept.push(segment)));
            assert(kept.push(segment).drop_last() =~= kept);
            assert(keep_segment(kept.push(segment), up) == Some(kept));
            assert(kept_segments(p + pieces) == keep_segment(kept.push(segment), up));
        },
        None => {
            assert(kept_segments(one) is None);
            assert(kept_segments(p + pieces) is None);
        },
    }
    lemma_respelled(a, x, b);
    assert(a.push('/') + x + seq!['/'] + b =~= a + seq!['/'] + segment + seq!['/', '.', '.', '/']
        + b);
    assert(a.push('/') + b =~= a + seq!['/'] + b);
}

/// A path of ordinary segments is its own normal form, with a slash at its end
/// and without.
pub proof fn law_ordinary_paths_stay_as_they_are(segments: Seq<Seq<char>>)
    requires
        all_ordinary(segments),
        segments.len() > 0,
    ensures
        ({
            let path = seq!['/'] + join(segments, seq!['/']);
            &&& normalised(path) == Some(path)
            &&& normalised(path.push('/')) == Some(path.push('/'))
        }),
{
    lemma_joined_ends(segments);
    lemma_assembled_is_normal(segments, false);
    lemma_assembled_is_normal(segments, true);
    let path = seq!['/'] + join(segments, seq!['/']);
    assert(path.last() == join(segments, seq!['/']).last());
    assert(assembled(segments, false) == path);
    assert(assembled(segments, true) == path.push('/'));
}

/// A path that does not begin at the root is refused, and so is one with a
/// segment that holds a NUL or a backslash.
pub proof fn law_what_is_refused(s: Seq<char>, k: int)
    requires
        (s.len() == 0 || s[0] != '/') || (0 <= k < split(s, '/').len() && (split(
            s,
            '/',
        )[k].contains('\0') || split(s, '/')[k].contains('\\'))),
    ensures
        normalised(s) is None,
{
    if s.len() > 0 && s[0] == '/' {
        let pieces = split(s, '/');
        let bad = pieces[k];
        assert(seq!['.'][0] == '.' && seq!['.', '.'][0] == '.' && seq!['.', '.'][1] == '.');
        if bad.contains('\0') {
            let i = choose|i: int| 0 <= i < bad.len() && bad[i] == '\0';
            assert(bad != seq!['.'] && bad != seq!['.', '.']);
        } else {
            let i = choose|i: int| 0 <= i < bad.len() && bad[i] == '\\';
            assert(bad != seq!['.'] && bad != seq!['.', '.']);
        }
        assert(pieces.take(k + 1).drop_last() =~= pieces.take(k));
        assert(pieces.take(k + 1).last() == bad);
        assert(kept_segments(pieces.take(k + 1)) is None);
        crate::urls::lemma_kept_stops(pieces, k + 1);
    }
}

} // verus!
