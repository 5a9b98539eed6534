//! How texts and numbers are written in URLs and in hexadecimal.

use vstd::prelude::*;
use vstd::utf8::{encode_utf8, is_ascii_chars};

use crate::number::{fixed_hex, hex_capital, hex_char};
use crate::urls::{
    encoded_byte, is_unreserved, normalised, percent_decoded, percent_encoded, query_start,
    target_path, without_query,
};

verus! {

/* ------------------------------------------------------------ percent-encoding */

/// Whether a character stands for itself in a URL.
pub open spec fn stands_for_itself(c: char) -> bool {
    ||| 'A' <= c <= 'Z'
    ||| 'a' <= c <= 'z'
    ||| '0' <= c <= '9'
    ||| c == '-'
    ||| c == '.'
    ||| c == '_'
    ||| c == '~'
}

/// A text of letters, digits and `-._~` is written as it is.
pub proof fn law_plain_text_is_written_as_it_is(s: Seq<char>)
    requires
        forall|i: int| 0 <= i < s.len() ==> stands_for_itself(#[trigger] s[i]),
    ensures
        percent_encoded(encode_utf8(s)) == s,
{
    assert(is_ascii_chars(s));
    vstd::utf8::is_ascii_chars_encode_utf8(s);
    let b = encode_utf8(s);
    assert forall|i: int| 0 <= i < b.len() implies is_unreserved(#[trigger] b[i]) by {
        assert(stands_for_itself(s[i]));
        assert(s[i] as u8 == b[i]);
    }
    lemma_unreserved_bytes(b);
    assert forall|i: int| 0 <= i < s.len() implies s[i] == #[trigger] percent_encoded(b)[i] by {
        assert(s[i] as u8 == b[i]);
    }
    assert(percent_encoded(b) =~= s);
}

proof fn lemma_unreserved_bytes(b: Seq<u8>)
    requires
        forall|i: int| 0 <= i < b.len() ==> is_unreserved(#[trigger] b[i]),
    ensures
        percent_encoded(b).len() == b.len(),
        forall|i: int| 0 <= i < b.len() ==> #[trigger] percent_encoded(b)[i] == b[i] as char,
    decreases b.len(),
{
    if b.len() > 0 {
        let rest = b.skip(1);
        assert forall|i: int| 0 <= i < rest.len() implies is_unreserved(#[trigger] rest[i]) by {
            assert(rest[i] == b[i + 1]);
        }
        assert(is_unreserved(b[0]));
        lemma_unreserved_bytes(rest);
        assert forall|i: int| 0 <= i < b.len() implies #[trigger] percent_encoded(b)[i]
            == b[i] as char by {
            if i > 0 {
                assert(percent_encoded(b)[i] == percent_encoded(rest)[i - 1]);
                assert(rest[i - 1] == b[i]);
            }
        }
    }
}

/// Bytes are written one after the other.
pub proof fn law_bytes_are_written_one_by_one(a: Seq<u8>, b: Seq<u8>)
    ensures
        percent_encoded(a + b) == percent_encoded(a) + percent_encoded(b),
    decreases a.len(),
{
    if a.len() == 0 {
        assert(a + b =~= b);
        assert(percent_encoded(a) + percent_encoded(b) =~= percent_encoded(b));
    } else {
        law_bytes_are_written_one_by_one(a.skip(1), b);
        assert((a + b).skip(1) =~= a.skip(1) + b);
        assert(percent_encoded(a + b) =~= percent_encoded(a) + percent_encoded(b));
    }
}

/// Any byte that does not stand for itself is written as `%` and its two digits,
/// the high one first, in capital letters.
pub proof fn law_other_bytes_are_written_in_hexadecimal(b: u8)
    requires
        !stands_for_itself(b as char),
    ensures
        percent_encoded(seq![b]) == seq![
            '%',
            "0123456789ABCDEF"@[b as int / 16],
            "0123456789ABCDEF"@[b as int % 16],
        ],
{
    reveal_strlit("0123456789ABCDEF");
    assert(!is_unreserved(b));
    assert(seq![b].skip(1) =~= Seq::<u8>::empty());
    assert(percent_encoded(seq![b].skip(1)) =~= Seq::<char>::empty());
    assert(percent_encoded(seq![b]) =~= encoded_byte(b));
    lemma_capital((b / 16) as nat);
    lemma_capital((b % 16) as nat);
}

proof fn lemma_capital(d: nat)
    requires
        d < 16,
    ensures
        hex_capital(d) == "0123456789ABCDEF"@[d as int],
{
    reveal_strlit("0123456789ABCDEF");
}

proof fn lemma_plain_bytes(b: Seq<u8>)
    requires
        forall|i: int| 0 <= i < b.len() ==> #[trigger] b[i] != 37,
    ensures
        percent_decoded(b) == b,
    decreases b.len(),
{
    if b.len() > 0 {
        let rest = b.skip(1);
        assert forall|i: int| 0 <= i < rest.len() implies #[trigger] rest[i] != 37 by {
            assert(rest[i] == b[i + 1]);
        }
        assert(b[0] != 37);
        lemma_plain_bytes(rest);
        assert(percent_decoded(b) =~= b);
    } else {
        assert(percent_decoded(b) =~= b);
    }
}

/// A target that holds no `%`, `?` or `#` asks for the path that it writes out,
/// and so does one with any query or fragment behind such a path.
pub proof fn law_plain_targets_ask_for_their_path(s: Seq<char>, behind: Seq<char>)
    requires
        is_ascii_chars(s),
        forall|i: int|
            0 <= i < s.len() ==> #[trigger] s[i] != '%' && s[i] != '?' && s[i] != '#',
        behind.len() > 0 ==> behind[0] == '?' || behind[0] == '#',
    ensures
        target_path(s + behind) == normalised(s),
{
    let all = s + behind;
    lemma_query_after(all, 0, s.len() as int);
    assert(without_query(all) =~= s);
    vstd::utf8::is_ascii_chars_encode_utf8(s);
    let b = encode_utf8(s);
    assert forall|i: int| 0 <= i < b.len() implies #[trigger] b[i] != 37 by {
        assert(s[i] as u8 == b[i]);
        assert(s[i] != '%');
    }
    lemma_plain_bytes(b);
    vstd::utf8::encode_utf8_decode_utf8(s);
    vstd::utf8::encode_utf8_valid_utf8(s);
}

proof fn lemma_query_after(s: Seq<char>, from: int, at: int)
    requires
        0 <= from <= at <= s.len(),
        forall|i: int| from <= i < at ==> #[trigger] s[i] != '?' && s[i] != '#',
        at < s.len() ==> s[at] == '?' || s[at] == '#',
    ensures
        query_start(s, from) == at,
    decreases at - from,
{
    if from < at {
        assert(s[from] != '?' && s[from] != '#');
        lemma_query_after(s, from + 1, at);
    }
}

/* ---------------------------------------------------------------- hexadecimal */

/// A power of sixteen.
pub open spec fn sixteens(n: nat) -> nat
    decreases n,
{
    if n == 0 {
        1
    } else {
        16 * sixteens((n - 1) as nat)
    }
}

/// A number in a fixed number of hexadecimal digits holds, at each place, what
/// the number has there: the last digit counts ones, the one before it sixteens,
/// and so on.
pub proof fn law_hexadecimal_digits_count_sixteens(n: nat, width: nat, i: int)
    requires
        0 <= i < width,
    ensures
        fixed_hex(n, width).len() == width,
        fixed_hex(n, width)[i] == "0123456789abcdef"@[(n as int / sixteens(
            (width - 1 - i) as nat,
        ) as int) % 16],
    decreases width,
{
    reveal_strlit("0123456789abcdef");
    lemma_fixed_len(n, width);
    lemma_fixed_len(n / 16, (width - 1) as nat);
    if i == width - 1 {
        assert(sixteens((width - 1 - i) as nat) == 1);
        assert(n as int / 1 == n);
        lemma_small(n % 16);
    } else {
        let p = (width - 2 - i) as nat;
        law_hexadecimal_digits_count_sixteens(n / 16, (width - 1) as nat, i);
        assert(width - 1 - i == p + 1);
        assert(sixteens((p + 1) as nat) == 16 * sixteens(p));
        assert(fixed_hex(n, width)[i] == fixed_hex(n / 16, (width - 1) as nat)[i]);
        lemma_sixteens(p);
        vstd::arithmetic::div_mod::lemma_div_denominator(n as int, 16, sixteens(p) as int);
    }
}

proof fn lemma_sixteens(n: nat)
    ensures
        sixteens(n) > 0,
    decreases n,
{
    if n > 0 {
        lemma_sixteens((n - 1) as nat);
    }
}

proof fn lemma_fixed_len(n: nat, width: nat)
    ensures
        fixed_hex(n, width).len() == width,
    decreases width,
{
    if width > 0 {
        lemma_fixed_len(n / 16, (width - 1) as nat);
    }
}

proof fn lemma_small(d: nat)
    requires
        d < 16,
    ensures
        hex_char(d) == "0123456789abcdef"@[d as int],
{
    reveal_strlit("0123456789abcdef");
}

} // verus!
