//! Request targets and URL paths.

use vstd::prelude::*;
use vstd::utf8::{decode_utf8, encode_utf8, is_ascii_chars, valid_utf8};

use crate::number::{capital_hex_digit, hex_capital};
use crate::text::{chars_of, join, joined, lemma_texts_push, split, split_at_each, text_of, texts};

verus! {

/* ---------------------------------------------------------- percent encoding */

/// The value of a hexadecimal digit.
pub open spec fn hex_value(b: u8) -> Option<nat> {
    if 48 <= b <= 57 {
        Some((b - 48) as nat)
    } else if 65 <= b <= 70 {
        Some((b - 55) as nat)
    } else if 97 <= b <= 102 {
        Some((b - 87) as nat)
    } else {
        None
    }
}

/// Bytes with every `%` that two hexadecimal digits follow replaced, together
/// with them, by the byte that the digits stand for.
pub open spec fn percent_decoded(b: Seq<u8>) -> Seq<u8>
    decreases b.len(),
{
    if b.len() == 0 {
        Seq::empty()
    } else if b.len() >= 3 && b[0] == 37 && hex_value(b[1]) is Some && hex_value(b[2]) is Some {
        seq![(hex_value(b[1])->0 * 16 + hex_value(b[2])->0) as u8] + percent_decoded(b.skip(3))
    } else {
        seq![b[0]] + percent_decoded(b.skip(1))
    }
}

/// The text that a percent-encoded text stands for, if that is valid UTF-8.
pub open spec fn decoded(s: Seq<char>) -> Option<Seq<char>> {
    let bytes = percent_decoded(encode_utf8(s));
    if valid_utf8(bytes) {
        Some(decode_utf8(bytes))
    } else {
        None
    }
}

/// `percent_encoding::percent_decode_str` followed by `decode_utf8`: replaces
/// each percent escape by its byte, leaves a `%` that begins no escape alone,
/// and gives the text that the bytes encode, or nothing where they are not
/// valid UTF-8.
#[verifier::external_body]
fn decode_percent(s: &str) -> (r: Option<String>)
    ensures
        match r {
            Some(text) => decoded(s@) == Some(text@),
            None => decoded(s@) is None,
        },
{
    percent_encoding::percent_decode_str(s).decode_utf8().ok().map(|text| text.into_owned())
}

/// The bytes that stand for themselves in a URL: letters, digits and `-._~`.
pub open spec fn is_unreserved(b: u8) -> bool {
    65 <= b <= 90 || 97 <= b <= 122 || 48 <= b <= 57 || b == 45 || b == 46 || b == 95 || b == 126
}

/// How one byte is written in a URL.
pub open spec fn encoded_byte(b: u8) -> Seq<char> {
    if is_unreserved(b) {
        seq![b as char]
    } else {
        seq!['%', hex_capital((b / 16) as nat), hex_capital((b % 16) as nat)]
    }
}

/// How bytes are written in a URL.
pub open spec fn percent_encoded(b: Seq<u8>) -> Seq<char>
    decreases b.len(),
{
    if b.len() == 0 {
        Seq::empty()
    } else {
        encoded_byte(b[0]) + percent_encoded(b.skip(1))
    }
}

/// Percent-encodes one segment of a URL path.
pub fn encode_segment(segment: &str) -> (r: String)
    ensures
        r@ == percent_encoded(encode_utf8(segment@)),
{
    let bytes = segment.as_bytes();
    let mut out = String::new();
    assert(bytes@.skip(0) =~= bytes@);
    assert(out@ + percent_encoded(bytes@.skip(0)) =~= percent_encoded(bytes@));
    for i in 0..bytes.len()
        invariant
            out@ + percent_encoded(bytes@.skip(i as int)) == percent_encoded(bytes@),
    {
        let b = bytes[i];
        let ghost before = out@;
        if (65 <= b && b <= 90) || (97 <= b && b <= 122) || (48 <= b && b <= 57) || b == 45 || b
            == 46 || b == 95 || b == 126 {
            out.push(b as char);
        } else {
            out.push('%');
            out.push(capital_hex_digit(b / 16));
            out.push(capital_hex_digit(b % 16));
        }
        proof {
            assert(out@ =~= before + encoded_byte(b));
            assert(bytes@.skip(i as int).skip(1) =~= bytes@.skip(i + 1));
            assert(out@ + percent_encoded(bytes@.skip(i + 1)) =~= before + percent_encoded(
                bytes@.skip(i as int),
            ));
        }
    }
    assert(bytes@.skip(bytes@.len() as int) =~= Seq::<u8>::empty());
    assert(out@ =~= percent_encoded(bytes@));
    out
}

/// Encoded text holds unreserved characters and `%` only.
pub proof fn lemma_encoded_ascii(b: Seq<u8>)
    ensures
        is_ascii_chars(percent_encoded(b)),
        forall|i: int|
            0 <= i < percent_encoded(b).len() ==> ({
                let c = #[trigger] percent_encoded(b)[i];
                is_unreserved(c as u8) || c == '%'
            }),
    decreases b.len(),
{
    if b.len() > 0 {
        lemma_encoded_ascii(b.skip(1));
        let s = percent_encoded(b);
        assert forall|i: int| 0 <= i < s.len() implies ({
            let c = #[trigger] s[i];
            '\0' <= c <= '\u{7f}' && (is_unreserved(c as u8) || c == '%')
        }) by {
            if i < encoded_byte(b[0]).len() {
                assert(s[i] == encoded_byte(b[0])[i]);
            } else {
                assert(s[i] == percent_encoded(b.skip(1))[i - encoded_byte(b[0]).len()]);
            }
        }
    }
}

/// The bytes of an ASCII text.
pub open spec fn ascii_bytes(s: Seq<char>) -> Seq<u8> {
    Seq::new(s.len(), |i: int| s[i] as u8)
}

/// The bytes that were encoded are decoded again.
pub proof fn lemma_decode_encoded(b: Seq<u8>)
    ensures
        percent_decoded(ascii_bytes(percent_encoded(b))) == b,
    decreases b.len(),
{
    let s = ascii_bytes(percent_encoded(b));
    if b.len() == 0 {
        assert(s =~= Seq::<u8>::empty());
        assert(percent_decoded(s) =~= b);
    } else {
        let rest = ascii_bytes(percent_encoded(b.skip(1)));
        lemma_decode_encoded(b.skip(1));
        let first = encoded_byte(b[0]);
        assert(forall|i: int| 0 <= i < rest.len() ==> s[first.len() + i] == rest[i]);
        assert(s.skip(first.len() as int) =~= rest);
        assert(seq![b[0]] + b.skip(1) =~= b);
        if is_unreserved(b[0]) {
            assert(s[0] == b[0]);
        } else {
            assert(s[0] == 37);
            assert(s[1] == hex_capital((b[0] / 16) as nat) as u8);
            assert(s[2] == hex_capital((b[0] % 16) as nat) as u8);
            assert(hex_value(s[1]) == Some((b[0] / 16) as nat));
            assert(hex_value(s[2]) == Some((b[0] % 16) as nat));
        }
    }
}

/// Decoding an encoded segment gives the segment back.
pub proof fn law_encoding_reads_back(s: Seq<char>)
    ensures
        decoded(percent_encoded(encode_utf8(s))) == Some(s),
{
    let bytes = encode_utf8(s);
    let written = percent_encoded(bytes);
    lemma_encoded_ascii(bytes);
    vstd::utf8::is_ascii_chars_encode_utf8(written);
    assert(encode_utf8(written) =~= ascii_bytes(written));
    lemma_decode_encoded(bytes);
    vstd::utf8::encode_utf8_valid_utf8(s);
    vstd::utf8::encode_utf8_decode_utf8(s);
}

/* ------------------------------------------------------------ request targets */

/// Where the query or the fragment of a target begins.
pub open spec fn query_start(s: Seq<char>, from: int) -> int
    decreases s.len() - from,
{
    if from >= s.len() || s[from] == '?' || s[from] == '#' {
        from
    } else {
        query_start(s, from + 1)
    }
}

/// A target without its query and fragment.
pub open spec fn without_query(s: Seq<char>) -> Seq<char> {
    s.take(query_start(s, 0))
}

/// Whether a segment holds a character that no file name may hold.
pub open spec fn has_forbidden(segment: Seq<char>) -> bool {
    segment.contains('\0') || segment.contains('\\')
}

/// The segments kept after one more: empty and `.` segments change nothing,
/// `..` takes the last one back, and there is no going above the root.
pub open spec fn keep_segment(kept: Seq<Seq<char>>, segment: Seq<char>) -> Option<Seq<Seq<char>>> {
    if segment.len() == 0 || segment == seq!['.'] {
        Some(kept)
    } else if segment == seq!['.', '.'] {
        if kept.len() == 0 {
            None
        } else {
            Some(kept.drop_last())
        }
    } else if has_forbidden(segment) {
        None
    } else {
        Some(kept.push(segment))
    }
}

/// The segments kept of a whole path.
pub open spec fn kept_segments(segments: Seq<Seq<char>>) -> Option<Seq<Seq<char>>>
    decreases segments.len(),
{
    if segments.len() == 0 {
        Some(Seq::empty())
    } else {
        match kept_segments(segments.drop_last()) {
            Some(kept) => keep_segment(kept, segments.last()),
            None => None,
        }
    }
}

/// The path made of kept segments, with a trailing slash where there was one.
pub open spec fn assembled(kept: Seq<Seq<char>>, trailing: bool) -> Seq<char> {
    let path = seq!['/'] + join(kept, seq!['/']);
    if trailing && path.last() != '/' {
        path.push('/')
    } else {
        path
    }
}

/// The normal form of a decoded path, if it stays under the root.
pub open spec fn normalised(s: Seq<char>) -> Option<Seq<char>> {
    if s.len() == 0 || s[0] != '/' {
        None
    } else {
        match kept_segments(split(s, '/')) {
            Some(kept) => Some(assembled(kept, s.len() > 1 && s.last() == '/')),
            None => None,
        }
    }
}

/// The path that a request target asks for.
pub open spec fn target_path(target: Seq<char>) -> Option<Seq<char>> {
    match decoded(without_query(target)) {
        Some(s) => normalised(s),
        None => None,
    }
}

/// Once a path has been given up, no further segment brings it back.
pub proof fn lemma_kept_stops(segments: Seq<Seq<char>>, upto: int)
    requires
        0 <= upto <= segments.len(),
        kept_segments(segments.take(upto)) is None,
    ensures
        kept_segments(segments) is None,
    decreases segments.len() - upto,
{
    if upto < segments.len() {
        assert(segments.take(upto + 1).drop_last() =~= segments.take(upto));
        lemma_kept_stops(segments, upto + 1);
    } else {
        assert(segments.take(upto) =~= segments);
    }
}

fn is_text(segment: &str, chars: &[char]) -> (r: bool)
    ensures
        r == (segment@ == chars@),
{
    crate::text::same_chars(chars_of(segment).as_slice(), chars)
}

fn holds_forbidden(segment: &str) -> (r: bool)
    ensures
        r == has_forbidden(segment@),
{
    let s = chars_of(segment);
    for i in 0..s.len()
        invariant
            s@ == segment@,
            forall|j: int| 0 <= j < i ==> s@[j] != '\0' && s@[j] != '\\',
    {
        if s[i] == '\0' || s[i] == '\\' {
            assert(segment@[i as int] == s@[i as int]);
            return true;
        }
    }
    false
}

/// Brings a decoded path into normal form.
///
/// Gives nothing for a path that does not begin at the root, that leads above
/// it, or that holds a NUL or a backslash: neither is ever legitimate, and
/// both have a history of confusing filesystem layers.
pub fn normalise(path: &str) -> (r: Option<String>)
    ensures
        match r {
            Some(p) => normalised(path@) == Some(p@),
            None => normalised(path@) is None,
        },
{
    let s = chars_of(path);
    if s.len() == 0 || s[0] != '/' {
        return None;
    }
    let trailing = s.len() > 1 && s[s.len() - 1] == '/';
    let segments = split_at_each(s.as_slice(), '/');
    let ghost all = split(path@, '/');
    let mut kept: Vec<String> = Vec::new();
    assert(all.take(0) =~= Seq::<Seq<char>>::empty());
    assert(texts(kept@) =~= Seq::<Seq<char>>::empty());
    for i in 0..segments.len()
        invariant
            texts(segments@) == all,
            all == split(path@, '/'),
            path@.len() > 0,
            path@[0] == '/',
            kept_segments(all.take(i as int)) == Some(texts(kept@)),
    {
        broadcast use lemma_texts_push;

        let segment = segments[i].as_str();
        proof {
            assert(segment@ == all[i as int]);
            assert(all.take(i + 1).drop_last() =~= all.take(i as int));
            assert(all.take(i + 1).last() == segment@);
            assert(['.']@ =~= seq!['.']);
            assert(['.', '.']@ =~= seq!['.', '.']);
        }
        let ghost before = texts(kept@);
        let nothing = segment.is_empty() || is_text(segment, &['.']);
        if !nothing && is_text(segment, &['.', '.']) {
            if kept.len() == 0 {
                proof {
                    lemma_kept_stops(all, i + 1);
                }
                return None;
            }
            let _ = kept.pop();
            assert(texts(kept@) =~= before.drop_last());
        } else if !nothing {
            if holds_forbidden(segment) {
                proof {
                    lemma_kept_stops(all, i + 1);
                }
                return None;
            }
            kept.push(crate::text::owned(segment));
        }
    }
    assert(all.take(segments.len() as int) =~= all);
    let mut out = text_of(&['/']);
    let middle = joined(&kept, "/");
    proof {
        reveal_strlit("/");
        assert("/"@ =~= seq!['/']);
        assert(out@ =~= seq!['/']);
    }
    out.append(middle.as_str());
    let so_far = chars_of(out.as_str());
    if trailing && so_far[so_far.len() - 1] != '/' {
        out.push('/');
    }
    Some(out)
}

/// Extracts and decodes the path from a request target.
pub fn path_of_target(target: &str) -> (r: Option<String>)
    ensures
        match r {
            Some(path) => target_path(target@) == Some(path@),
            None => target_path(target@) is None,
        },
{
    let t = chars_of(target);
    let mut end: usize = 0;
    while end < t.len() && t[end] != '?' && t[end] != '#'
        invariant
            end <= t@.len(),
            query_start(t@, 0) == query_start(t@, end as int),
        decreases t@.len() - end,
    {
        end = end + 1;
    }
    assert(t@.subrange(0, end as int) =~= without_query(target@));
    let path = text_of(vstd::slice::slice_subrange(t.as_slice(), 0, end));
    match decode_percent(path.as_str()) {
        Some(decoded) => normalise(decoded.as_str()),
        None => None,
    }
}

} // verus!
