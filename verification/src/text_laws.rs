//! What holds of texts, letter by letter.

use vstd::prelude::*;

use crate::text::{
    ascii_lower, is_white, join, lower, occurs_at, split, strip_leading, strip_trailing, trim,
    trim_end, trim_start,
};

verus! {

/* ------------------------------------------------------------------- letters */

/// Whether a character is a small letter, or the capital of it.
pub open spec fn same_letter(c: char, small: char) -> bool {
    c == small || ('a' <= small <= 'z' && c as u32 + 32 == small as u32)
}

/// Whether a text reads as another that holds no capitals, whatever the case of
/// its own letters.
pub open spec fn reads_as(s: Seq<char>, small: Seq<char>) -> bool {
    s.len() == small.len() && forall|i: int|
        0 <= i < s.len() ==> same_letter(#[trigger] s[i], small[i])
}

/// Whether a text holds no capitals.
pub open spec fn is_small(s: Seq<char>) -> bool {
    forall|i: int| 0 <= i < s.len() ==> !('A' <= #[trigger] s[i] <= 'Z')
}

/// Small letters are compared letter by letter: a text in small letters is
/// another exactly where it reads as the other.
pub proof fn law_small_letters_compare_by_letter(s: Seq<char>, small: Seq<char>)
    requires
        is_small(small),
    ensures
        (lower(s) == small) == reads_as(s, small),
{
    if lower(s) == small {
        assert forall|i: int| 0 <= i < s.len() implies same_letter(#[trigger] s[i], small[i]) by {
            assert(lower(s)[i] == ascii_lower(s[i]));
        }
    }
    if reads_as(s, small) {
        assert forall|i: int| 0 <= i < s.len() implies lower(s)[i] == small[i] by {
            assert(same_letter(s[i], small[i]));
            assert(!('A' <= small[i] <= 'Z'));
        }
        assert(lower(s) =~= small);
    }
}

/// Whether two characters are the same, or one letter in two cases.
pub open spec fn same_but_case(a: char, b: char) -> bool {
    ||| a == b
    ||| 'a' <= a <= 'z' && a as u32 == b as u32 + 32
    ||| 'a' <= b <= 'z' && b as u32 == a as u32 + 32
}

/// Two texts are the same but for case exactly where each place holds the same
/// character, or one letter in two cases.
pub proof fn law_case_is_all_that_is_ignored(a: Seq<char>, b: Seq<char>)
    ensures
        (lower(a) == lower(b)) == (a.len() == b.len() && forall|i: int|
            0 <= i < a.len() ==> same_but_case(#[trigger] a[i], b[i])),
{
    assert(lower(a).len() == a.len() && lower(b).len() == b.len());
    if lower(a) == lower(b) {
        assert forall|i: int| 0 <= i < a.len() implies same_but_case(#[trigger] a[i], b[i]) by {
            assert(lower(a)[i] == ascii_lower(a[i]));
            assert(lower(b)[i] == ascii_lower(b[i]));
        }
    } else if a.len() == b.len() && forall|i: int|
        0 <= i < a.len() ==> same_but_case(#[trigger] a[i], b[i]) {
        assert forall|i: int| 0 <= i < a.len() implies lower(a)[i] == lower(b)[i] by {
            assert(same_but_case(a[i], b[i]));
        }
        assert(lower(a) =~= lower(b));
    }
}

/* ---------------------------------------------------------------- white space */

/// What white space is: a tab, a line feed and what stands between it and a
/// carriage return, a blank, and the blanks that Unicode adds.
pub proof fn law_white_space(c: char)
    ensures
        is_white(c) == (9 <= c as u32 <= 13 || c as u32 == 32 || c as u32 == 0x85 || c as u32
            == 0xa0 || c as u32 == 0x1680 || 0x2000 <= c as u32 <= 0x200a || c as u32 == 0x2028
            || c as u32 == 0x2029 || c as u32 == 0x202f || c as u32 == 0x205f || c as u32
            == 0x3000),
{
}

/// Whether a text is white space only.
pub open spec fn all_white(s: Seq<char>) -> bool {
    forall|i: int| 0 <= i < s.len() ==> is_white(#[trigger] s[i])
}

/// Trimming takes away the white space around a text, all of it, and nothing
/// else.
pub proof fn law_trimming_takes_the_white_space_around(
    before: Seq<char>,
    core: Seq<char>,
    after: Seq<char>,
)
    requires
        all_white(before),
        all_white(after),
        core.len() > 0 ==> !is_white(core[0]) && !is_white(core.last()),
    ensures
        trim(before + core + after) == core,
{
    let rest = core + after;
    assert(before + core + after =~= before + rest);
    lemma_trim_start(before, rest);
    if core.len() > 0 {
        assert(rest[0] == core[0]);
        lemma_trim_end(core, after);
    } else {
        assert(rest =~= after);
        lemma_all_white_trims(after);
        assert(core =~= Seq::<char>::empty());
    }
}

proof fn lemma_trim_start(before: Seq<char>, rest: Seq<char>)
    requires
        all_white(before),
    ensures
        trim_start(before + rest) == trim_start(rest),
    decreases before.len(),
{
    let s = before + rest;
    if before.len() > 0 {
        assert(is_white(before[0]));
        assert(s[0] == before[0]);
        assert(s.skip(1) =~= before.skip(1) + rest);
        assert forall|i: int| 0 <= i < before.skip(1).len() implies is_white(
            #[trigger] before.skip(1)[i],
        ) by {
            assert(before.skip(1)[i] == before[i + 1]);
        }
        lemma_trim_start(before.skip(1), rest);
    } else {
        assert(s =~= rest);
    }
}

proof fn lemma_trim_end(core: Seq<char>, after: Seq<char>)
    requires
        all_white(after),
        core.len() > 0,
        !is_white(core.last()),
    ensures
        trim_end(core + after) == core,
    decreases after.len(),
{
    let s = core + after;
    if after.len() > 0 {
        assert(is_white(after[after.len() - 1]));
        assert(s.last() == after.last());
        assert(s.drop_last() =~= core + after.drop_last());
        assert forall|i: int| 0 <= i < after.drop_last().len() implies is_white(
            #[trigger] after.drop_last()[i],
        ) by {
            assert(after.drop_last()[i] == after[i]);
        }
        lemma_trim_end(core, after.drop_last());
    } else {
        assert(s =~= core);
    }
}

proof fn lemma_all_white_trims(s: Seq<char>)
    requires
        all_white(s),
    ensures
        trim_start(s).len() == 0,
        trim_end(trim_start(s)) == Seq::<char>::empty(),
{
    lemma_trim_start(s, Seq::empty());
    assert(s + Seq::<char>::empty() =~= s);
    assert(trim_end(trim_start(s)) =~= Seq::<char>::empty());
}

/* ------------------------------------------------------------------ stripping */

/// Stripping takes all copies of a character from the front, and nothing else.
pub proof fn law_stripping_the_front(n: nat, c: char, rest: Seq<char>)
    requires
        rest.len() > 0 ==> rest[0] != c,
    ensures
        strip_leading(Seq::new(n, |i: int| c) + rest, c) == rest,
    decreases n,
{
    let s = Seq::new(n, |i: int| c) + rest;
    if n > 0 {
        law_stripping_the_front((n - 1) as nat, c, rest);
        assert(s.skip(1) =~= Seq::new((n - 1) as nat, |i: int| c) + rest);
    } else {
        assert(s =~= rest);
    }
}

/// Stripping takes all copies of a character from the end, and nothing else.
pub proof fn law_stripping_the_end(rest: Seq<char>, n: nat, c: char)
    requires
        rest.len() > 0 ==> rest.last() != c,
    ensures
        strip_trailing(rest + Seq::new(n, |i: int| c), c) == rest,
    decreases n,
{
    let s = rest + Seq::new(n, |i: int| c);
    if n > 0 {
        law_stripping_the_end(rest, (n - 1) as nat, c);
        assert(s.drop_last() =~= rest + Seq::new((n - 1) as nat, |i: int| c));
    } else {
        assert(s =~= rest);
    }
}

/* ------------------------------------------------------------------ splitting */

/// Splitting loses nothing: the pieces with the separator between them are the
/// text again.
pub proof fn law_pieces_make_the_text_again(s: Seq<char>, sep: char)
    ensures
        split(s, sep).len() >= 1,
        join(split(s, sep), seq![sep]) == s,
    decreases s.len(),
{
    let pieces = split(s, sep);
    if s.len() == 0 {
        assert(join(pieces, seq![sep]) =~= s);
    } else {
        let front = s.drop_last();
        law_pieces_make_the_text_again(front, sep);
        let before = split(front, sep);
        if s.last() == sep {
            assert(pieces.drop_last() =~= before);
            assert(join(pieces, seq![sep]) =~= front + seq![sep]);
            assert(front + seq![sep] =~= s);
        } else if before.len() == 1 {
            assert(pieces =~= seq![before[0].push(s.last())]);
            assert(join(pieces, seq![sep]) =~= s);
        } else {
            assert(pieces.drop_last() =~= before.drop_last());
            assert(pieces.last() == before.last().push(s.last()));
            assert(join(pieces, seq![sep]) =~= join(before, seq![sep]).push(s.last()));
            assert(front.push(s.last()) =~= s);
        }
    }
}

/// A list of texts free of the separator is what its joined text splits into.
pub proof fn law_joined_texts_split_again(list: Seq<Seq<char>>, sep: char)
    requires
        list.len() > 0,
        forall|k: int| 0 <= k < list.len() ==> !(#[trigger] list[k]).contains(sep),
    ensures
        split(join(list, seq![sep]), sep) == list,
    decreases list.len(),
{
    let last = list[list.len() - 1];
    assert(!last.contains(sep));
    assert forall|i: int| 0 <= i < last.len() implies last[i] != sep by {
        if last[i] == sep {
            assert(last.contains(sep));
        }
    }
    if list.len() == 1 {
        lemma_split_single(last, sep);
        assert(list =~= seq![last]);
    } else {
        let front = list.drop_last();
        assert forall|k: int| 0 <= k < front.len() implies !(#[trigger] front[k]).contains(sep) by {
            assert(front[k] == list[k]);
        }
        law_joined_texts_split_again(front, sep);
        let before = join(front, seq![sep]);
        crate::text::lemma_split_append(before, sep, last);
        assert(join(list, seq![sep]) =~= before.push(sep) + last);
        assert(front.push(last) =~= list);
    }
}

proof fn lemma_split_single(s: Seq<char>, sep: char)
    requires
        forall|i: int| 0 <= i < s.len() ==> s[i] != sep,
    ensures
        split(s, sep) == seq![s],
    decreases s.len(),
{
    if s.len() > 0 {
        let front = s.drop_last();
        lemma_split_single(front, sep);
        assert(front.push(s.last()) =~= s);
        assert(seq![front].drop_last().push(s) =~= seq![s]);
    } else {
        assert(s =~= Seq::<char>::empty());
    }
}

/// Texts are joined with the separator between each two of them, and nowhere else.
pub proof fn law_separators_stand_between_texts(list: Seq<Seq<char>>, text: Seq<char>, sep: Seq<char>)
    ensures
        join(Seq::<Seq<char>>::empty(), sep) == Seq::<char>::empty(),
        join(seq![text], sep) == text,
        list.len() > 0 ==> join(list.push(text), sep) == join(list, sep) + sep + text,
{
    assert(list.push(text).drop_last() =~= list);
}

/* ------------------------------------------------------------------ searching */

/// A text stands at a place where each of its characters does, one after the
/// other.
pub proof fn law_a_text_stands_where_its_characters_do(s: Seq<char>, needle: Seq<char>, at: int)
    ensures
        occurs_at(s, needle, at) == (0 <= at && at + needle.len() <= s.len() && forall|k: int|
            0 <= k < needle.len() ==> s[at + k] == #[trigger] needle[k]),
{
    if 0 <= at && at + needle.len() <= s.len() {
        let part = s.subrange(at, at + needle.len());
        if occurs_at(s, needle, at) {
            assert forall|k: int| 0 <= k < needle.len() implies s[at + k] == #[trigger] needle[k] by {
                assert(part[k] == s[at + k]);
            }
        } else if forall|k: int| 0 <= k < needle.len() ==> s[at + k] == #[trigger] needle[k] {
            assert(part =~= needle);
        }
    }
}

} // verus!
