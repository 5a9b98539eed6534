//! What holds of the order of a batch of changes.

use vstd::prelude::*;
use vstd::utf8::encode_utf8;

use crate::listing::bytes_before;
use crate::listing_laws::lemma_bytes_asymmetric;
use crate::path::components;
use crate::watch::{component_before, components_before, noted, path_before};

verus! {

proof fn lemma_bytes_transitive(a: Seq<u8>, b: Seq<u8>, c: Seq<u8>)
    ensures
        bytes_before(a, b) && bytes_before(b, c) ==> bytes_before(a, c),
    decreases a.len(),
{
    if a.len() > 0 && b.len() > 0 && c.len() > 0 && a[0] == b[0] && b[0] == c[0] {
        lemma_bytes_transitive(a.skip(1), b.skip(1), c.skip(1));
    }
}

proof fn lemma_bytes_total(a: Seq<u8>, b: Seq<u8>)
    ensures
        a != b ==> bytes_before(a, b) || bytes_before(b, a),
    decreases a.len(),
{
    if a.len() > 0 && b.len() > 0 && a[0] == b[0] {
        lemma_bytes_total(a.skip(1), b.skip(1));
        if a.skip(1) == b.skip(1) {
            assert(a =~= seq![a[0]] + a.skip(1));
            assert(b =~= seq![b[0]] + b.skip(1));
        }
    } else if a.len() == 0 && b.len() == 0 {
        assert(a =~= b);
    }
}

proof fn lemma_component_order(a: Seq<char>, b: Seq<char>, c: Seq<char>)
    ensures
        component_before(a, b) && component_before(b, c) ==> component_before(a, c),
        a != b ==> component_before(a, b) || component_before(b, a),
{
    lemma_bytes_transitive(encode_utf8(a), encode_utf8(b), encode_utf8(c));
    lemma_bytes_total(encode_utf8(a), encode_utf8(b));
    vstd::utf8::encode_utf8_decode_utf8(a);
    vstd::utf8::encode_utf8_decode_utf8(b);
}

proof fn lemma_component_asymmetric(a: Seq<char>, b: Seq<char>)
    ensures
        component_before(a, b) ==> !component_before(b, a),
{
    lemma_bytes_asymmetric(encode_utf8(a), encode_utf8(b));
}

proof fn lemma_transitive(a: Seq<Seq<char>>, b: Seq<Seq<char>>, c: Seq<Seq<char>>)
    ensures
        components_before(a, b) && components_before(b, c) ==> components_before(a, c),
    decreases a.len(),
{
    if a.len() > 0 && b.len() > 0 && c.len() > 0 {
        lemma_component_order(a[0], b[0], c[0]);
        lemma_component_asymmetric(a[0], b[0]);
        lemma_transitive(a.skip(1), b.skip(1), c.skip(1));
    }
}

proof fn lemma_total(a: Seq<Seq<char>>, b: Seq<Seq<char>>)
    ensures
        a != b ==> components_before(a, b) || components_before(b, a),
    decreases a.len(),
{
    if a.len() > 0 && b.len() > 0 {
        lemma_component_order(a[0], b[0], b[0]);
        if a[0] == b[0] {
            lemma_total(a.skip(1), b.skip(1));
            if a.skip(1) == b.skip(1) {
                assert(a =~= seq![a[0]] + a.skip(1));
                assert(b =~= seq![b[0]] + b.skip(1));
            }
        }
    } else if a.len() == 0 && b.len() == 0 {
        assert(a =~= b);
    }
}

/// Whether every path of a list comes before those that follow it.
pub open spec fn in_path_order(list: Seq<Seq<char>>) -> bool {
    forall|i: int, j: int|
        0 <= i < j < list.len() ==> path_before(#[trigger] list[i], #[trigger] list[j])
}

proof fn lemma_noted_holds(list: Seq<Seq<char>>, path: Seq<char>)
    ensures
        forall|k: int|
            0 <= k < noted(list, path).len() ==> #[trigger] noted(list, path)[k] == path
                || list.contains(noted(list, path)[k]),
    decreases list.len(),
{
    let all = noted(list, path);
    assert forall|k: int| 0 <= k < all.len() implies #[trigger] all[k] == path || list.contains(
        all[k],
    ) by {
        if list.len() == 0 {
        } else if components(list.last()) == components(path) {
            assert(list[k] == all[k]);
        } else if path_before(path, list.last()) {
            let front = list.drop_last();
            lemma_noted_holds(front, path);
            let inner = noted(front, path);
            if k < inner.len() {
                assert(all[k] == inner[k]);
                if inner[k] != path {
                    let m = choose|m: int| 0 <= m < front.len() && front[m] == inner[k];
                    assert(list[m] == all[k]);
                }
            } else {
                assert(list[list.len() - 1] == all[k]);
            }
        } else if k < list.len() {
            assert(list[k] == all[k]);
        }
    }
}

proof fn lemma_irreflexive(a: Seq<Seq<char>>)
    ensures
        !components_before(a, a),
    decreases a.len(),
{
    if a.len() > 0 {
        lemma_irreflexive(a.skip(1));
    }
}

/// In a list that is in order no path is there twice, in whatever spelling.
pub proof fn law_ordered_paths_are_distinct(list: Seq<Seq<char>>, i: int, j: int)
    requires
        in_path_order(list),
        0 <= i < j < list.len(),
    ensures
        components(list[i]) != components(list[j]),
{
    lemma_irreflexive(components(list[i]));
    assert(path_before(list[i], list[j]));
}

/// A batch stays in order as paths are added to it.
pub proof fn law_a_batch_stays_in_order(list: Seq<Seq<char>>, path: Seq<char>)
    requires
        in_path_order(list),
    ensures
        in_path_order(noted(list, path)),
    decreases list.len(),
{
    let all = noted(list, path);
    if list.len() == 0 {
    } else if components(list.last()) == components(path) {
    } else if path_before(path, list.last()) {
        let front = list.drop_last();
        let last = list[list.len() - 1];
        assert forall|i: int, j: int| 0 <= i < j < front.len() implies path_before(
            #[trigger] front[i],
            #[trigger] front[j],
        ) by {
            assert(front[i] == list[i] && front[j] == list[j]);
        }
        law_a_batch_stays_in_order(front, path);
        lemma_noted_holds(front, path);
        let inner = noted(front, path);
        assert forall|i: int, j: int| 0 <= i < j < all.len() implies path_before(
            #[trigger] all[i],
            #[trigger] all[j],
        ) by {
            assert(all[i] == inner[i]);
            if j < inner.len() {
                assert(all[j] == inner[j]);
            } else if inner[i] != path {
                let m = choose|m: int| 0 <= m < front.len() && front[m] == inner[i];
                assert(list[m] == inner[i]);
                assert(path_before(list[m], list[list.len() - 1]));
            }
        }
    } else {
        let last = list[list.len() - 1];
        lemma_total(components(path), components(last));
        assert(path_before(last, path));
        assert forall|i: int, j: int| 0 <= i < j < all.len() implies path_before(
            #[trigger] all[i],
            #[trigger] all[j],
        ) by {
            assert(all[i] == list[i]);
            if j < list.len() {
                assert(all[j] == list[j]);
            } else if i < list.len() - 1 {
                assert(path_before(list[i], list[list.len() - 1]));
                lemma_transitive(components(list[i]), components(last), components(path));
            }
        }
    }
}

} // verus!
