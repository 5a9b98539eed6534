//! What holds of the order in which a directory is listed.

use vstd::prelude::*;
use vstd::utf8::encode_utf8;

use crate::listing::{
    bytes_before, entity, entry_before, escaped, filed, listing, lowercase, nearest_double, only,
    rounded, row, rows, size_text, sorted, spacing, unit_for, unit_name, unit_size, EntryModel,
    PAGE_OPENING, PAGE_STYLE,
};
use crate::number::decimal;
use crate::urls::percent_encoded;

verus! {

/// Of two byte strings at most one comes before the other.
pub proof fn lemma_bytes_asymmetric(a: Seq<u8>, b: Seq<u8>)
    ensures
        bytes_before(a, b) ==> !bytes_before(b, a),
    decreases a.len(),
{
    if a.len() > 0 && b.len() > 0 && a[0] == b[0] {
        lemma_bytes_asymmetric(a.skip(1), b.skip(1));
    }
}

proof fn lemma_bytes_between(a: Seq<u8>, b: Seq<u8>, c: Seq<u8>)
    ensures
        bytes_before(a, c) ==> bytes_before(a, b) || bytes_before(b, c),
    decreases a.len(),
{
    if a.len() > 0 && b.len() > 0 && c.len() > 0 && a[0] == b[0] && b[0] == c[0] {
        lemma_bytes_between(a.skip(1), b.skip(1), c.skip(1));
    }
}

/// Whether no entry of a list comes before one that stands ahead of it.
pub open spec fn in_order(list: Seq<EntryModel>) -> bool {
    forall|i: int, j: int|
        0 <= i < j < list.len() ==> !entry_before(#[trigger] list[j], #[trigger] list[i])
}

proof fn lemma_filed(list: Seq<EntryModel>, entry: EntryModel)
    requires
        in_order(list),
    ensures
        in_order(filed(list, entry)),
        filed(list, entry).to_multiset() == list.to_multiset().insert(entry),
        filed(list, entry).len() == list.len() + 1,
        forall|k: int|
            0 <= k < filed(list, entry).len() ==> #[trigger] filed(list, entry)[k] == entry
                || list.contains(filed(list, entry)[k]),
    decreases list.len(),
{
    broadcast use vstd::seq_lib::group_to_multiset_ensures;

    let result = filed(list, entry);
    if list.len() > 0 && entry_before(entry, list.last()) {
        let front = list.drop_last();
        let last = list[list.len() - 1];
        assert(in_order(front)) by {
            assert forall|i: int, j: int| 0 <= i < j < front.len() implies !entry_before(
                #[trigger] front[j],
                #[trigger] front[i],
            ) by {
                assert(front[i] == list[i] && front[j] == list[j]);
            }
        }
        lemma_filed(front, entry);
        let inner = filed(front, entry);
        assert(list =~= front.push(last));
        assert(result.to_multiset() =~= list.to_multiset().insert(entry));
        lemma_bytes_asymmetric(
            encode_utf8(lowercase(entry.name)),
            encode_utf8(lowercase(last.name)),
        );
        assert forall|k: int| 0 <= k < result.len() implies #[trigger] result[k] == entry
            || list.contains(result[k]) by {
            if k < inner.len() {
                assert(result[k] == inner[k]);
                if inner[k] != entry {
                    let m = choose|m: int| 0 <= m < front.len() && front[m] == inner[k];
                    assert(list[m] == result[k]);
                }
            } else {
                assert(list[list.len() - 1] == result[k]);
            }
        }
        assert forall|i: int, j: int| 0 <= i < j < result.len() implies !entry_before(
            #[trigger] result[j],
            #[trigger] result[i],
        ) by {
            assert(result[i] == inner[i]);
            if j < inner.len() {
                assert(result[j] == inner[j]);
            } else if inner[i] != entry {
                let m = choose|m: int| 0 <= m < front.len() && front[m] == inner[i];
                assert(list[m] == inner[i]);
                assert(result[j] == list[list.len() - 1]);
            }
        }
    } else {
        assert(result == list.push(entry));
        assert forall|k: int| 0 <= k < result.len() implies #[trigger] result[k] == entry
            || list.contains(result[k]) by {
            if k < list.len() {
                assert(list[k] == result[k]);
            }
        }
        assert forall|i: int, j: int| 0 <= i < j < result.len() implies !entry_before(
            #[trigger] result[j],
            #[trigger] result[i],
        ) by {
            assert(result[i] == list[i]);
            if j < list.len() {
                assert(result[j] == list[j]);
            } else {
                let last = list[list.len() - 1];
                lemma_bytes_between(
                    encode_utf8(lowercase(entry.name)),
                    encode_utf8(lowercase(last.name)),
                    encode_utf8(lowercase(list[i].name)),
                );
                lemma_bytes_asymmetric(
                    encode_utf8(lowercase(last.name)),
                    encode_utf8(lowercase(last.name)),
                );
            }
        }
    }
}

/// A sorted listing is in order and holds what was to be listed: every entry,
/// as often as before, and nothing else.
pub proof fn law_sorting_only_reorders(list: Seq<EntryModel>)
    ensures
        in_order(sorted(list)),
        sorted(list).to_multiset() == list.to_multiset(),
    decreases list.len(),
{
    broadcast use vstd::seq_lib::group_to_multiset_ensures;

    if list.len() > 0 {
        law_sorting_only_reorders(list.drop_last());
        lemma_filed(sorted(list.drop_last()), list.last());
        assert(list =~= list.drop_last().push(list.last()));
    } else {
        assert(sorted(list) =~= list);
    }
}

/// A list that is in order already is listed as it stands, so entries that
/// neither comes before the other keep the order in which they were read.
pub proof fn law_sorting_keeps_what_is_in_order(list: Seq<EntryModel>)
    requires
        in_order(list),
    ensures
        sorted(list) == list,
    decreases list.len(),
{
    if list.len() > 0 {
        let front = list.drop_last();
        assert(in_order(front)) by {
            assert forall|i: int, j: int| 0 <= i < j < front.len() implies !entry_before(
                #[trigger] front[j],
                #[trigger] front[i],
            ) by {
                assert(front[i] == list[i] && front[j] == list[j]);
            }
        }
        law_sorting_keeps_what_is_in_order(front);
        if front.len() > 0 {
            let n = list.len() - 1;
            assert(!entry_before(list[n], list[n - 1]));
            assert(front.last() == list[n - 1]);
        }
        assert(front.push(list.last()) =~= list);
    } else {
        assert(sorted(list) =~= list);
    }
}

/* ---------------------------------------------------------------------- order */

/// Bytes come before others where they are the beginning of the others, or have
/// the smaller byte at the first place where the two differ.
pub proof fn law_bytes_are_in_dictionary_order(a: Seq<u8>, b: Seq<u8>)
    ensures
        bytes_before(a, b) == exists|i: int|
            #![trigger a.take(i)]
            0 <= i <= a.len() && i < b.len() && a.take(i) == b.take(i) && (i == a.len() || a[i]
                < b[i]),
    decreases a.len(),
{
    if bytes_before(a, b) {
        lemma_first_difference(a, b);
    }
    if exists|i: int|
        #![trigger a.take(i)]
        0 <= i <= a.len() && i < b.len() && a.take(i) == b.take(i) && (i == a.len() || a[i]
            < b[i]) {
        let i = choose|i: int|
            #![trigger a.take(i)]
            0 <= i <= a.len() && i < b.len() && a.take(i) == b.take(i) && (i == a.len() || a[i]
                < b[i]);
        lemma_difference_decides(a, b, i);
    }
}

proof fn lemma_first_difference(a: Seq<u8>, b: Seq<u8>)
    requires
        bytes_before(a, b),
    ensures
        exists|i: int|
            #![trigger a.take(i)]
            0 <= i <= a.len() && i < b.len() && a.take(i) == b.take(i) && (i == a.len() || a[i]
                < b[i]),
    decreases a.len(),
{
    if a.len() == 0 || a[0] != b[0] {
        assert(a.take(0) =~= b.take(0));
    } else {
        let p = a.skip(1);
        let q = b.skip(1);
        lemma_first_difference(p, q);
        let i = choose|i: int|
            #![trigger p.take(i)]
            0 <= i <= p.len() && i < q.len() && p.take(i) == q.take(i) && (i == p.len() || p[i]
                < q[i]);
        assert forall|j: int| 0 <= j < i + 1 implies a[j] == b[j] by {
            if j > 0 {
                assert(p.take(i)[j - 1] == q.take(i)[j - 1]);
            }
        }
        assert(a.take(i + 1) =~= b.take(i + 1));
    }
}

proof fn lemma_difference_decides(a: Seq<u8>, b: Seq<u8>, i: int)
    requires
        0 <= i <= a.len(),
        i < b.len(),
        a.take(i) == b.take(i),
        i == a.len() || a[i] < b[i],
    ensures
        bytes_before(a, b),
    decreases i,
{
    if i > 0 {
        assert(a.take(i)[0] == a[0] && b.take(i)[0] == b[0]);
        assert(a.skip(1).take(i - 1) =~= a.take(i).skip(1));
        assert(b.skip(1).take(i - 1) =~= b.take(i).skip(1));
        if i < a.len() {
            assert(a.skip(1)[i - 1] == a[i] && b.skip(1)[i - 1] == b[i]);
        }
        lemma_difference_decides(a.skip(1), b.skip(1), i - 1);
    } else if a.len() > 0 {
        assert(a[0] < b[0]);
    }
}

/// Entries are in the order of their names in small letters, and of nothing else
/// about them.
pub proof fn law_entries_are_ordered_by_name(a: EntryModel, b: EntryModel)
    ensures
        entry_before(a, b) == bytes_before(
            encode_utf8(lowercase(a.name)),
            encode_utf8(lowercase(b.name)),
        ),
{
}

/* ----------------------------------------------------------------------- rows */

/// Directories and files are told apart, and none of either is lost.
pub proof fn law_every_entry_is_a_directory_or_a_file(list: Seq<EntryModel>)
    ensures
        only(list, true).to_multiset().add(only(list, false).to_multiset()) == list.to_multiset(),
        forall|k: int| 0 <= k < only(list, true).len() ==> (#[trigger] only(list, true)[k]).size is None,
        forall|k: int|
            0 <= k < only(list, false).len() ==> (#[trigger] only(list, false)[k]).size is Some,
    decreases list.len(),
{
    broadcast use vstd::seq_lib::group_to_multiset_ensures;

    if list.len() > 0 {
        let front = list.drop_last();
        law_every_entry_is_a_directory_or_a_file(front);
        assert(list =~= front.push(list.last()));
        assert(only(list, true).to_multiset().add(only(list, false).to_multiset())
            =~= list.to_multiset());
    } else {
        assert(only(list, true).to_multiset().add(only(list, false).to_multiset())
            =~= list.to_multiset());
    }
}

/// Directories and files keep the order they are in.
pub proof fn law_telling_apart_keeps_the_order(
    a: Seq<EntryModel>,
    entry: EntryModel,
    b: Seq<EntryModel>,
    directories: bool,
)
    ensures
        only(a + seq![entry] + b, directories) == only(a, directories) + (if directories == (
        entry.size is None) {
            seq![entry]
        } else {
            Seq::<EntryModel>::empty()
        }) + only(b, directories),
    decreases b.len(),
{
    let all = a + seq![entry] + b;
    let own = if directories == (entry.size is None) {
        seq![entry]
    } else {
        Seq::<EntryModel>::empty()
    };
    if b.len() == 0 {
        assert(all.drop_last() =~= a);
        assert(all.last() == entry);
    } else {
        law_telling_apart_keeps_the_order(a, entry, b.drop_last(), directories);
        assert(all.drop_last() =~= a + seq![entry] + b.drop_last());
        assert(all.last() == b.last());
    }
    assert(only(all, directories) =~= only(a, directories) + own + only(b, directories));
}

/// The row of every entry stands in the rows of a list.
pub proof fn law_every_entry_has_its_row(list: Seq<EntryModel>, k: int)
    requires
        0 <= k < list.len(),
    ensures
        rows(list) == rows(list.take(k)) + row(list[k]) + rows(list.skip(k + 1)),
    decreases list.len(),
{
    if k == list.len() - 1 {
        assert(list.take(k) =~= list.drop_last());
        assert(list.skip(k + 1) =~= Seq::<EntryModel>::empty());
        assert(rows(list) =~= rows(list.take(k)) + row(list[k]) + rows(list.skip(k + 1)));
    } else {
        let front = list.drop_last();
        law_every_entry_has_its_row(front, k);
        assert(front.take(k) =~= list.take(k));
        assert(front.skip(k + 1) =~= list.skip(k + 1).drop_last());
        assert(list.skip(k + 1).last() == list.last());
        assert(rows(list) =~= rows(list.take(k)) + row(list[k]) + rows(list.skip(k + 1)));
    }
}

/// A listing shows its directories and then its files, each in order, below the
/// path that it is for; and the way up, unless it is for the root.
pub proof fn law_a_listing_shows_everything(list: Seq<EntryModel>, url_path: Seq<char>)
    ensures
        ({
            let all = rows(sorted(only(list, true))) + rows(sorted(only(list, false)));
            let up = "<li class=\"dir\"><a href=\"..\">../</a></li>"@;
            let tail = escaped(url_path) + "</h1><ul>"@ + (if url_path == "/"@ {
                all
            } else {
                up + all
            }) + "</ul></body></html>"@;
            tail.is_suffix_of(listing(list, url_path))
        }),
{
    let all = rows(sorted(only(list, true))) + rows(sorted(only(list, false)));
    let up = "<li class=\"dir\"><a href=\"..\">../</a></li>"@;
    let tail = escaped(url_path) + "</h1><ul>"@ + (if url_path == "/"@ {
        all
    } else {
        up + all
    }) + "</ul></body></html>"@;
    let head = PAGE_OPENING@ + escaped(url_path) + PAGE_STYLE@;
    assert(listing(list, url_path) =~= head + tail);
}

/// The row of a directory links to it with a slash at the end, that of a file to
/// the file with its size beside it; and both show the name.
pub proof fn law_rows_link_to_their_entries(name: Seq<char>, size: u64)
    ensures
        ({
            let href = percent_encoded(encode_utf8(name));
            &&& row(EntryModel { name, size: None }) == "<li class=\"dir\"><a href=\""@ + href
                + "/\">"@ + escaped(name) + "/</a></li>"@
            &&& row(EntryModel { name, size: Some(size) }) == "<li><a href=\""@ + href + "\">"@
                + escaped(name) + "</a><span>"@ + size_text(size as nat) + "</span></li>"@
        }),
{
}

/// Escaping goes character by character: only `&`, `<`, `>` and `"` are written
/// otherwise.
pub proof fn law_escaping_goes_by_character(a: Seq<char>, c: char, b: Seq<char>)
    ensures
        escaped(a + seq![c] + b) == escaped(a) + (if c == '&' {
            seq!['&', 'a', 'm', 'p', ';']
        } else if c == '<' {
            seq!['&', 'l', 't', ';']
        } else if c == '>' {
            seq!['&', 'g', 't', ';']
        } else if c == '"' {
            seq!['&', 'q', 'u', 'o', 't', ';']
        } else {
            seq![c]
        }) + escaped(b),
        escaped(Seq::<char>::empty()) == Seq::<char>::empty(),
    decreases b.len(),
{
    reveal_strlit("&amp;");
    reveal_strlit("&lt;");
    reveal_strlit("&gt;");
    reveal_strlit("&quot;");
    assert("&amp;"@ =~= seq!['&', 'a', 'm', 'p', ';']);
    assert("&lt;"@ =~= seq!['&', 'l', 't', ';']);
    assert("&gt;"@ =~= seq!['&', 'g', 't', ';']);
    assert("&quot;"@ =~= seq!['&', 'q', 'u', 'o', 't', ';']);
    let all = a + seq![c] + b;
    if b.len() == 0 {
        assert(all.drop_last() =~= a);
        assert(all.last() == c);
        assert(escaped(b) =~= Seq::<char>::empty());
        assert(escaped(all) =~= escaped(a) + entity(c) + escaped(b));
    } else {
        law_escaping_goes_by_character(a, c, b.drop_last());
        assert(all.drop_last() =~= a + seq![c] + b.drop_last());
        assert(all.last() == b.last());
        assert(escaped(all) =~= escaped(a) + entity(c) + escaped(b));
    }
}

/* ---------------------------------------------------------------------- sizes */

/// Whether a text gives a size in a unit, to the nearest tenth; to the even one,
/// where two are as near.
pub open spec fn gives_size(text: Seq<char>, bytes: nat, unit: nat, name: Seq<char>) -> bool {
    exists|tenths: nat|
        text == #[trigger] decimal(tenths / 10) + "."@ + decimal(tenths % 10) + " "@ + name
            && is_nearest(tenths, 10 * bytes, unit)
}

/// Whether a number of steps comes nearest to a number, and is even where another
/// number of steps comes as near.
pub open spec fn is_nearest(steps: nat, n: nat, step: nat) -> bool {
    &&& 2 * (steps * step - n) <= step
    &&& 2 * (n - steps * step) <= step
    &&& 2 * (steps * step - n) == step || 2 * (n - steps * step) == step ==> steps % 2 == 0
}

/// Whether two doubles as large as a number lie this far apart: as far as it takes
/// for the number to be written with 53 binary digits.
pub open spec fn is_spacing(step: nat, n: nat) -> bool {
    &&& n < 0x20_0000_0000_0000 * step
    &&& step == 1 || n >= 0x10_0000_0000_0000 * step
}

/// Sizes are counted as doubles: each is the one nearest to the number of bytes.
pub proof fn law_sizes_are_counted_as_doubles(n: nat)
    ensures
        exists|steps: nat, step: nat|
            is_spacing(step, n) && is_nearest(steps, n, step) && nearest_double(n) == #[trigger] (
            steps * step),
        n < 0x20_0000_0000_0000 ==> nearest_double(n) == n,
{
    let step = spacing(n);
    let steps = rounded(n, step);
    lemma_spacing(n);
    lemma_rounding(n, step);
    assert(nearest_double(n) == steps * step);
    if n < 0x20_0000_0000_0000 {
        assert(step == 1);
        assert(n % 1 == 0);
        assert(steps == n);
        assert(steps * 1 == n);
    }
}

proof fn lemma_spacing(n: nat)
    ensures
        is_spacing(spacing(n), n),
        spacing(n) > 0,
    decreases n,
{
    if n >= 0x20_0000_0000_0000 {
        lemma_spacing(n / 2);
    }
}

/// A size from a kilobyte on is given to the nearest tenth of the largest unit
/// that it reaches, and one below in bytes.
pub proof fn law_sizes_are_given_to_the_nearest_tenth(bytes: nat)
    ensures
        ({
            let size = nearest_double(bytes);
            let text = size_text(bytes);
            &&& size < 1024 ==> text == decimal(bytes) + " B"@
            &&& 1024 <= size < 1048576 ==> gives_size(text, size, 1024, "KB"@)
            &&& 1048576 <= size < 1073741824 ==> gives_size(text, size, 1048576, "MB"@)
            &&& 1073741824 <= size < 1099511627776 ==> gives_size(text, size, 1073741824, "GB"@)
            &&& 1099511627776 <= size ==> gives_size(text, size, 1099511627776, "TB"@)
        }),
{
    reveal_with_fuel(unit_size, 5);
    reveal_with_fuel(unit_for, 5);
    let size = nearest_double(bytes);
    let unit = unit_for(size, 0);
    let step = unit_size(unit);
    let tenths = rounded(10 * size, step);
    if unit > 0 {
        lemma_rounding(10 * size, step);
        assert(size_text(bytes) == decimal(tenths / 10) + "."@ + decimal(tenths % 10) + " "@
            + unit_name(unit));
        assert(is_nearest(tenths, 10 * size, step));
    }
}

proof fn lemma_rounding(a: nat, b: nat)
    requires
        b > 0,
    ensures
        is_nearest(rounded(a, b), a, b),
{
    let q = a / b;
    let r = a % b;
    assert(a == q * b + r && r < b) by (nonlinear_arith)
        requires
            b > 0,
            q == a / b,
            r == a % b,
    ;
    assert((q + 1) * b == q * b + b) by (nonlinear_arith);
}

} // verus!
