//! Text as sequences of characters.
//!
//! Every function here states its result over the character sequence that is
//! the view of a `str`, so the modules that parse and print protocol text can
//! state theirs the same way.

use vstd::prelude::*;

verus! {

/// `String::push` of std: appends one character to the end of the string.
pub assume_specification[ String::push ](s: &mut String, c: char)
    ensures
        final(s)@ == old(s)@.push(c),
;

/* --------------------------------------------------------------- characters */

/// The characters with the Unicode `White_Space` property.
pub open spec fn is_white(c: char) -> bool {
    ||| '\u{9}' <= c <= '\u{d}'
    ||| c == ' '
    ||| c == '\u{85}'
    ||| c == '\u{a0}'
    ||| c == '\u{1680}'
    ||| '\u{2000}' <= c <= '\u{200a}'
    ||| c == '\u{2028}'
    ||| c == '\u{2029}'
    ||| c == '\u{202f}'
    ||| c == '\u{205f}'
    ||| c == '\u{3000}'
}

/// Whether a character is white space.
pub fn white(c: char) -> (r: bool)
    ensures
        r == is_white(c),
{
    ('\u{9}' <= c && c <= '\u{d}') || c == ' ' || c == '\u{85}' || c == '\u{a0}' || c == '\u{1680}'
        || ('\u{2000}' <= c && c <= '\u{200a}') || c == '\u{2028}' || c == '\u{2029}' || c
        == '\u{202f}' || c == '\u{205f}' || c == '\u{3000}'
}

/// `c` with an ASCII capital replaced by the small letter.
pub open spec fn ascii_lower(c: char) -> char {
    if 'A' <= c <= 'Z' {
        (c as u8 + 32) as u8 as char
    } else {
        c
    }
}

/// Replaces an ASCII capital by the small letter.
pub fn lower_char(c: char) -> (r: char)
    ensures
        r == ascii_lower(c),
{
    if 'A' <= c && c <= 'Z' {
        (c as u8 + 32) as char
    } else {
        c
    }
}

/// A text with every ASCII capital replaced by the small letter.
pub open spec fn lower(s: Seq<char>) -> Seq<char> {
    Seq::new(s.len(), |i: int| ascii_lower(s[i]))
}

/// A text in ASCII small letters.
pub fn lower_chars(s: &[char]) -> (r: Vec<char>)
    ensures
        r@ == lower(s@),
{
    let mut out: Vec<char> = Vec::new();
    for i in 0..s.len()
        invariant
            out@ == lower(s@).take(i as int),
    {
        out.push(lower_char(s[i]));
    }
    out
}

/* -------------------------------------------------------------- conversions */

/// The characters of a text, in order.
pub fn chars_of(s: &str) -> (r: Vec<char>)
    ensures
        r@ == s@,
{
    let mut out: Vec<char> = Vec::new();
    for c in it: s.chars()
        invariant
            it.seq() == s@,
            out@ == s@.take(it.index() as int),
    {
        out.push(c);
    }
    out
}

/// The text made of the given characters.
pub fn text_of(chars: &[char]) -> (r: String)
    ensures
        r@ == chars@,
{
    let mut out = String::new();
    for i in 0..chars.len()
        invariant
            out@ == chars@.take(i as int),
    {
        out.push(chars[i]);
    }
    out
}

/// What a list of strings says, one character sequence per string.
pub open spec fn texts(list: Seq<String>) -> Seq<Seq<char>> {
    Seq::new(list.len(), |i: int| list[i]@)
}

/// Pushing a string pushes its text.
pub broadcast proof fn lemma_texts_push(list: Seq<String>, s: String)
    ensures
        #[trigger] texts(list.push(s)) == texts(list).push(s@),
{
    assert(texts(list.push(s)) =~= texts(list).push(s@));
}

/// An owned copy of a text.
pub fn owned(s: &str) -> (r: String)
    ensures
        r@ == s@,
{
    s.to_string()
}

/// Copies a list of strings.
pub fn copy_texts(list: &Vec<String>) -> (r: Vec<String>)
    ensures
        texts(r@) == texts(list@),
{
    let mut out: Vec<String> = Vec::new();
    for i in 0..list.len()
        invariant
            texts(out@) == texts(list@).take(i as int),
    {
        broadcast use lemma_texts_push;

        out.push(owned(list[i].as_str()));
        assert(texts(list@).take(i as int).push(list@[i as int]@) =~= texts(list@).take(i + 1));
    }
    assert(texts(list@).take(list.len() as int) =~= texts(list@));
    out
}

/* --------------------------------------------------------------- comparison */

/// Whether two character slices hold the same text.
pub fn same_chars(a: &[char], b: &[char]) -> (r: bool)
    ensures
        r == (a@ == b@),
{
    if a.len() != b.len() {
        return false;
    }
    for i in 0..a.len()
        invariant
            a@.len() == b@.len(),
            forall|j: int| 0 <= j < i ==> a@[j] == b@[j],
    {
        if a[i] != b[i] {
            return false;
        }
    }
    assert(a@ =~= b@);
    true
}

/// Whether two texts are the same.
pub fn same_text(a: &str, b: &str) -> (r: bool)
    ensures
        r == (a@ == b@),
{
    same_chars(chars_of(a).as_slice(), chars_of(b).as_slice())
}

/// Whether two texts are the same but for the case of ASCII letters.
pub fn same_ignoring_case(a: &str, b: &str) -> (r: bool)
    ensures
        r == (lower(a@) == lower(b@)),
{
    let left = lower_chars(chars_of(a).as_slice());
    let right = lower_chars(chars_of(b).as_slice());
    same_chars(left.as_slice(), right.as_slice())
}

/// Whether two lists hold the same texts in the same order.
pub fn same_texts(a: &Vec<String>, b: &Vec<String>) -> (r: bool)
    ensures
        r == (texts(a@) == texts(b@)),
{
    if a.len() != b.len() {
        assert(texts(a@).len() != texts(b@).len());
        return false;
    }
    for i in 0..a.len()
        invariant
            a@.len() == b@.len(),
            forall|j: int| 0 <= j < i ==> a@[j]@ == b@[j]@,
    {
        if !same_text(a[i].as_str(), b[i].as_str()) {
            assert(texts(a@)[i as int] != texts(b@)[i as int]);
            return false;
        }
    }
    assert(texts(a@) =~= texts(b@));
    true
}

/// Whether a text is among those of a list.
pub fn among(list: &Vec<String>, s: &str) -> (r: bool)
    ensures
        r == texts(list@).contains(s@),
{
    for i in 0..list.len()
        invariant
            forall|j: int| 0 <= j < i ==> list@[j]@ != s@,
    {
        if same_text(list[i].as_str(), s) {
            assert(texts(list@)[i as int] == s@);
            return true;
        }
    }
    assert forall|j: int| 0 <= j < texts(list@).len() implies texts(list@)[j] != s@ by {
        assert(list@[j]@ != s@);
    }
    false
}

/* ----------------------------------------------------------------- trimming */

/// A text without its leading white space.
pub open spec fn trim_start(s: Seq<char>) -> Seq<char>
    decreases s.len(),
{
    if s.len() > 0 && is_white(s[0]) {
        trim_start(s.skip(1))
    } else {
        s
    }
}

/// A text without its trailing white space.
pub open spec fn trim_end(s: Seq<char>) -> Seq<char>
    decreases s.len(),
{
    if s.len() > 0 && is_white(s.last()) {
        trim_end(s.drop_last())
    } else {
        s
    }
}

/// A text without white space at either end.
pub open spec fn trim(s: Seq<char>) -> Seq<char> {
    trim_end(trim_start(s))
}

/// Drops white space from both ends.
pub fn trimmed(s: &[char]) -> (r: Vec<char>)
    ensures
        r@ == trim(s@),
{
    let mut start: usize = 0;
    assert(s@.skip(0) =~= s@);
    while start < s.len() && white(s[start])
        invariant
            start <= s@.len(),
            trim_start(s@) == trim_start(s@.skip(start as int)),
        decreases s@.len() - start,
    {
        assert(s@.skip(start as int).skip(1) =~= s@.skip(start + 1));
        start = start + 1;
    }
    let ghost front = s@.skip(start as int);
    assert(trim_start(s@) == front);
    let mut end: usize = s.len();
    assert(front =~= s@.subrange(start as int, end as int));
    while end > start && white(s[end - 1])
        invariant
            start <= end <= s@.len(),
            trim_end(front) == trim_end(s@.subrange(start as int, end as int)),
        decreases end,
    {
        assert(s@.subrange(start as int, end as int).drop_last() =~= s@.subrange(
            start as int,
            end - 1,
        ));
        end = end - 1;
    }
    vstd::slice::slice_to_vec(vstd::slice::slice_subrange(s, start, end))
}

/// A text without the leading copies of `c`.
pub open spec fn strip_leading(s: Seq<char>, c: char) -> Seq<char>
    decreases s.len(),
{
    if s.len() > 0 && s[0] == c {
        strip_leading(s.skip(1), c)
    } else {
        s
    }
}

/// A text without the trailing copies of `c`.
pub open spec fn strip_trailing(s: Seq<char>, c: char) -> Seq<char>
    decreases s.len(),
{
    if s.len() > 0 && s.last() == c {
        strip_trailing(s.drop_last(), c)
    } else {
        s
    }
}

/// Drops the leading copies of `c`.
pub fn without_leading(s: &[char], c: char) -> (r: Vec<char>)
    ensures
        r@ == strip_leading(s@, c),
{
    let mut start: usize = 0;
    assert(s@.skip(0) =~= s@);
    while start < s.len() && s[start] == c
        invariant
            start <= s@.len(),
            strip_leading(s@, c) == strip_leading(s@.skip(start as int), c),
        decreases s@.len() - start,
    {
        assert(s@.skip(start as int).skip(1) =~= s@.skip(start + 1));
        start = start + 1;
    }
    assert(s@.skip(start as int) =~= s@.subrange(start as int, s@.len() as int));
    vstd::slice::slice_to_vec(vstd::slice::slice_subrange(s, start, s.len()))
}

/// Drops the trailing copies of `c`.
pub fn without_trailing(s: &[char], c: char) -> (r: Vec<char>)
    ensures
        r@ == strip_trailing(s@, c),
{
    let mut end: usize = s.len();
    assert(s@.take(end as int) =~= s@);
    while end > 0 && s[end - 1] == c
        invariant
            end <= s@.len(),
            strip_trailing(s@, c) == strip_trailing(s@.take(end as int), c),
        decreases end,
    {
        assert(s@.take(end as int).drop_last() =~= s@.take(end - 1));
        end = end - 1;
    }
    assert(s@.take(end as int) =~= s@.subrange(0, end as int));
    vstd::slice::slice_to_vec(vstd::slice::slice_subrange(s, 0, end))
}

/* ---------------------------------------------------------------- searching */

/// Whether `needle` stands in `s` at position `i`.
pub open spec fn occurs_at(s: Seq<char>, needle: Seq<char>, i: int) -> bool {
    &&& 0 <= i
    &&& i + needle.len() <= s.len()
    &&& s.subrange(i, i + needle.len()) == needle
}

/// The first position from `from` on at which `needle` stands in `s`.
pub open spec fn find_from(s: Seq<char>, needle: Seq<char>, from: int) -> Option<int>
    decreases s.len() + 1 - from,
{
    if from + needle.len() > s.len() {
        None
    } else if occurs_at(s, needle, from) {
        Some(from)
    } else {
        find_from(s, needle, from + 1)
    }
}

/// The last position before `upto` at which `needle` stands in `s`.
pub open spec fn rfind_before(s: Seq<char>, needle: Seq<char>, upto: int) -> Option<int>
    decreases upto,
{
    if upto <= 0 {
        None
    } else if occurs_at(s, needle, upto - 1) {
        Some(upto - 1)
    } else {
        rfind_before(s, needle, upto - 1)
    }
}

/// The last position at which `needle` stands in `s`.
pub open spec fn rfind(s: Seq<char>, needle: Seq<char>) -> Option<int> {
    rfind_before(s, needle, (s.len() + 1) as int)
}

/// The first position from `from` on at which the character `c` stands.
pub open spec fn find_char(s: Seq<char>, c: char, from: int) -> Option<int>
    decreases s.len() - from,
{
    if from >= s.len() {
        None
    } else if s[from] == c {
        Some(from)
    } else {
        find_char(s, c, from + 1)
    }
}

/// Whether `needle` stands in `s` at position `i`.
pub fn stands_at(s: &[char], needle: &[char], i: usize) -> (r: bool)
    ensures
        r == occurs_at(s@, needle@, i as int),
{
    if i > s.len() || needle.len() > s.len() - i {
        return false;
    }
    same_chars(vstd::slice::slice_subrange(s, i, i + needle.len()), needle)
}

/// Whether `s` begins with `prefix`.
pub fn begins_with(s: &[char], prefix: &[char]) -> (r: bool)
    ensures
        r == occurs_at(s@, prefix@, 0),
{
    stands_at(s, prefix, 0)
}

/// Finds the first place where `needle` stands.
pub fn position_of(s: &[char], needle: &[char]) -> (r: Option<usize>)
    ensures
        match r {
            Some(i) => find_from(s@, needle@, 0) == Some(i as int),
            None => find_from(s@, needle@, 0) is None,
        },
{
    let mut i: usize = 0;
    while i <= s.len() && needle.len() <= s.len() - i
        invariant
            i <= s@.len() + 1,
            find_from(s@, needle@, 0) == find_from(s@, needle@, i as int),
        decreases s@.len() + 1 - i,
    {
        if stands_at(s, needle, i) {
            return Some(i);
        }
        if i == s.len() {
            assert(s@.subrange(i as int, i as int) =~= needle@);
            return None;
        }
        i = i + 1;
    }
    None
}

/// Finds the last place where `needle` stands.
pub fn last_position_of(s: &[char], needle: &[char]) -> (r: Option<usize>)
    ensures
        match r {
            Some(i) => rfind(s@, needle@) == Some(i as int),
            None => rfind(s@, needle@) is None,
        },
{
    if stands_at(s, needle, s.len()) {
        return Some(s.len());
    }
    let mut i: usize = s.len();
    while i > 0
        invariant
            i <= s@.len(),
            rfind(s@, needle@) == rfind_before(s@, needle@, i as int),
        decreases i,
    {
        if stands_at(s, needle, i - 1) {
            return Some(i - 1);
        }
        i = i - 1;
    }
    None
}

/// Finds the first place at or after `from` where the character `c` stands.
pub fn position_of_char(s: &[char], c: char, from: usize) -> (r: Option<usize>)
    ensures
        match r {
            Some(i) => find_char(s@, c, from as int) == Some(i as int),
            None => find_char(s@, c, from as int) is None,
        },
{
    let mut i: usize = from;
    while i < s.len()
        invariant
            find_char(s@, c, from as int) == find_char(s@, c, i as int),
        decreases s@.len() - i,
    {
        if s[i] == c {
            return Some(i);
        }
        i = i + 1;
    }
    None
}

/// What the first occurrence of a character means, position by position.
pub proof fn lemma_find_char(s: Seq<char>, c: char, from: int)
    requires
        0 <= from,
    ensures
        match find_char(s, c, from) {
            Some(i) => {
                &&& from <= i < s.len()
                &&& s[i] == c
                &&& forall|j: int| from <= j < i ==> s[j] != c
            },
            None => forall|j: int| from <= j < s.len() ==> s[j] != c,
        },
    decreases s.len() - from,
{
    if from < s.len() && s[from] != c {
        lemma_find_char(s, c, from + 1);
    }
}

/// What the first occurrence of a text means, position by position.
pub proof fn lemma_find_from(s: Seq<char>, needle: Seq<char>, from: int)
    requires
        0 <= from,
    ensures
        match find_from(s, needle, from) {
            Some(i) => {
                &&& from <= i
                &&& occurs_at(s, needle, i)
                &&& forall|j: int| from <= j < i ==> !occurs_at(s, needle, j)
            },
            None => forall|j: int| from <= j ==> !occurs_at(s, needle, j),
        },
    decreases s.len() + 1 - from,
{
    if from + needle.len() <= s.len() && !occurs_at(s, needle, from) {
        lemma_find_from(s, needle, from + 1);
    }
}

/// A place where a text stands, with none before it, is the one found.
pub proof fn lemma_find_is(s: Seq<char>, needle: Seq<char>, at: int)
    requires
        occurs_at(s, needle, at),
        forall|j: int| 0 <= j < at ==> !occurs_at(s, needle, j),
    ensures
        find_from(s, needle, 0) == Some(at),
{
    lemma_find_from(s, needle, 0);
}

/// A place where a character stands, with none before it, is the one found.
pub proof fn lemma_find_char_is(s: Seq<char>, c: char, from: int, at: int)
    requires
        0 <= from <= at < s.len(),
        s[at] == c,
        forall|j: int| from <= j < at ==> s[j] != c,
    ensures
        find_char(s, c, from) == Some(at),
{
    lemma_find_char(s, c, from);
}

/// What the last occurrence of a text means, position by position.
pub proof fn lemma_rfind_before(s: Seq<char>, needle: Seq<char>, upto: int)
    ensures
        match rfind_before(s, needle, upto) {
            Some(i) => {
                &&& 0 <= i < upto
                &&& occurs_at(s, needle, i)
                &&& forall|j: int| i < j < upto ==> !occurs_at(s, needle, j)
            },
            None => forall|j: int| j < upto ==> !occurs_at(s, needle, j),
        },
    decreases upto,
{
    if upto > 0 && !occurs_at(s, needle, upto - 1) {
        lemma_rfind_before(s, needle, upto - 1);
    }
}

/* ------------------------------------------------------ splitting and joining */

/// The pieces of a text between the copies of `sep`: always one more piece
/// than there are separators.
pub open spec fn split(s: Seq<char>, sep: char) -> Seq<Seq<char>>
    decreases s.len(),
{
    if s.len() == 0 {
        seq![Seq::<char>::empty()]
    } else if s.last() == sep {
        split(s.drop_last(), sep).push(Seq::<char>::empty())
    } else {
        let before = split(s.drop_last(), sep);
        before.drop_last().push(before.last().push(s.last()))
    }
}

/// Splits a text at every copy of `sep`.
pub fn split_at_each(s: &[char], sep: char) -> (r: Vec<String>)
    ensures
        texts(r@) == split(s@, sep),
        r@.len() >= 1,
{
    broadcast use lemma_texts_push;

    let mut done: Vec<String> = Vec::new();
    let mut current = String::new();
    proof {
        assert(s@.take(0) =~= Seq::<char>::empty());
        assert(texts(done@).push(current@) =~= split(s@.take(0), sep));
    }
    for i in 0..s.len()
        invariant
            texts(done@).push(current@) == split(s@.take(i as int), sep),
    {
        broadcast use lemma_texts_push;

        let ghost before = texts(done@).push(current@);
        proof {
            assert(s@.take(i + 1).drop_last() =~= s@.take(i as int));
            assert(before.drop_last() =~= texts(done@));
        }
        if s[i] == sep {
            done.push(current);
            current = String::new();
        } else {
            current.push(s[i]);
        }
        assert(texts(done@).push(current@) =~= split(s@.take(i + 1), sep));
    }
    assert(s@.take(s.len() as int) =~= s@);
    done.push(current);
    done
}

/// The texts of a list, with `sep` between neighbours.
pub open spec fn join(list: Seq<Seq<char>>, sep: Seq<char>) -> Seq<char>
    decreases list.len(),
{
    if list.len() == 0 {
        Seq::empty()
    } else if list.len() == 1 {
        list[0]
    } else {
        join(list.drop_last(), sep) + sep + list.last()
    }
}

/// Joins the texts of a list with `sep` between neighbours.
pub fn joined(list: &Vec<String>, sep: &str) -> (r: String)
    ensures
        r@ == join(texts(list@), sep@),
{
    let mut out = String::new();
    for i in 0..list.len()
        invariant
            out@ == join(texts(list@).take(i as int), sep@),
    {
        let ghost upto = texts(list@).take(i + 1);
        proof {
            assert(upto.drop_last() =~= texts(list@).take(i as int));
            assert(upto.last() == list@[i as int]@);
        }
        if i > 0 {
            out.append(sep);
        }
        out.append(list[i].as_str());
        proof {
            if i == 0 {
                assert(out@ =~= upto[0]);
            }
        }
    }
    assert(texts(list@).take(list.len() as int) =~= texts(list@));
    out
}

/* -------------------------------------------------------------------- lemmas */

/// A piece without separators, put behind a separator, becomes the last piece.
pub proof fn lemma_split_append(s: Seq<char>, sep: char, t: Seq<char>)
    requires
        forall|i: int| 0 <= i < t.len() ==> t[i] != sep,
    ensures
        split(s.push(sep) + t, sep) == split(s, sep).push(t),
    decreases t.len(),
{
    let full = s.push(sep) + t;
    if t.len() == 0 {
        assert(full =~= s.push(sep));
        assert(full.drop_last() =~= s);
        assert(t =~= Seq::<char>::empty());
    } else {
        let front = t.drop_last();
        lemma_split_append(s, sep, front);
        assert(full.drop_last() =~= s.push(sep) + front);
        assert(full.last() == t.last());
        let before = split(s, sep).push(front);
        assert(before.drop_last() =~= split(s, sep));
        assert(front.push(t.last()) =~= t);
    }
}

/// No piece holds a separator.
pub proof fn lemma_split_pieces(s: Seq<char>, sep: char)
    ensures
        split(s, sep).len() >= 1,
        forall|k: int, i: int|
            #![trigger split(s, sep)[k][i]]
            0 <= k < split(s, sep).len() && 0 <= i < split(s, sep)[k].len() ==> split(s, sep)[k][i]
                != sep,
    decreases s.len(),
{
    if s.len() > 0 {
        lemma_split_pieces(s.drop_last(), sep);
        let before = split(s.drop_last(), sep);
        let pieces = split(s, sep);
        assert forall|k: int, i: int|
            #![trigger pieces[k][i]]
            0 <= k < pieces.len() && 0 <= i < pieces[k].len() implies pieces[k][i] != sep by {
            if s.last() == sep {
                if k < before.len() {
                    assert(pieces[k] == before[k]);
                    assert(before[k][i] != sep);
                }
            } else if k < before.len() - 1 {
                assert(pieces[k] == before[k]);
                assert(before[k][i] != sep);
            } else if i < before.last().len() {
                assert(before[before.len() - 1][i] != sep);
            }
        }
    }
}

/// UTF-8 encodes texts piece by piece.
pub proof fn lemma_encode_concat(a: Seq<char>, b: Seq<char>)
    ensures
        vstd::utf8::encode_utf8(a + b) == vstd::utf8::encode_utf8(a) + vstd::utf8::encode_utf8(b),
    decreases a.len(),
{
    if a.len() == 0 {
        assert(a + b =~= b);
        assert(vstd::utf8::encode_utf8(a) =~= Seq::<u8>::empty());
        assert(vstd::utf8::encode_utf8(a) + vstd::utf8::encode_utf8(b) =~= vstd::utf8::encode_utf8(
            b,
        ));
    } else {
        lemma_encode_concat(a.drop_first(), b);
        assert((a + b).drop_first() =~= a.drop_first() + b);
        let first = vstd::utf8::encode_scalar(a[0] as u32);
        assert(first + (vstd::utf8::encode_utf8(a.drop_first()) + vstd::utf8::encode_utf8(b))
            =~= (first + vstd::utf8::encode_utf8(a.drop_first())) + vstd::utf8::encode_utf8(b));
    }
}

/// Every character takes at least one byte and at most four.
pub proof fn lemma_encode_len(a: Seq<char>)
    ensures
        a.len() <= vstd::utf8::encode_utf8(a).len() <= 4 * a.len(),
    decreases a.len(),
{
    if a.len() > 0 {
        lemma_encode_len(a.drop_first());
    }
}

} // verus!
