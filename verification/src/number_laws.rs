//! How numbers are written and read.

use vstd::prelude::*;

use crate::number::{
    all_digits, decimal, digit_char, digits_value, is_digit, parse_unsigned, unsigned_digits,
};

verus! {

/// A power of ten.
pub open spec fn tens(n: nat) -> nat
    decreases n,
{
    if n == 0 {
        1
    } else {
        10 * tens((n - 1) as nat)
    }
}

proof fn lemma_tens(n: nat)
    ensures
        tens(n) > 0,
    decreases n,
{
    if n > 0 {
        lemma_tens((n - 1) as nat);
    }
}

proof fn lemma_digit_char(d: nat)
    requires
        d < 10,
    ensures
        digit_char(d) == "0123456789"@[d as int],
{
    reveal_strlit("0123456789");
}

/// A number in decimal holds, at each place, what the number has there: the last
/// digit counts ones, the one before it tens, and so on. There are as many digits
/// as the number takes, and no nought before the others.
pub proof fn law_decimal_digits_count_tens(n: nat, i: int)
    ensures
        0 <= i < decimal(n).len() ==> decimal(n)[decimal(n).len() - 1 - i] == "0123456789"@[(
        n as int / tens(i as nat) as int) % 10],
        decimal(n).len() > 0,
        n < tens(decimal(n).len()),
        decimal(n).len() == 1 || decimal(n)[0] != '0',
    decreases n,
{
    reveal_with_fuel(tens, 2);
    let s = decimal(n);
    if n < 10 {
        lemma_digit_char(n);
        if i == 0 {
            assert(n as int / 1 == n);
        }
        assert(tens(1) == 10);
    } else {
        let front = decimal(n / 10);
        law_decimal_digits_count_tens(n / 10, i - 1);
        lemma_first_digit(n / 10);
        assert(tens(s.len()) == 10 * tens(front.len()));
        if i == 0 {
            assert(n as int / 1 == n);
            lemma_digit_char(n % 10);
        } else if 0 < i < s.len() {
            assert(s[s.len() - 1 - i] == front[front.len() - 1 - (i - 1)]);
            lemma_tens((i - 1) as nat);
            assert(tens(i as nat) == 10 * tens((i - 1) as nat));
            vstd::arithmetic::div_mod::lemma_div_denominator(
                n as int,
                10,
                tens((i - 1) as nat) as int,
            );
        }
        assert(s[0] == front[0]);
    }
}

proof fn lemma_first_digit(n: nat)
    requires
        n > 0,
    ensures
        decimal(n).len() > 0,
        decimal(n)[0] != '0',
    decreases n,
{
    if n >= 10 {
        lemma_first_digit(n / 10);
        assert(decimal(n)[0] == decimal(n / 10)[0]);
    }
}

/// One digit is read as its value, and so is one behind a `+`; every further
/// digit makes ten times what was read before, and itself. What is more than the
/// limit is refused, and stays so.
pub proof fn law_digits_are_read_one_by_one(s: Seq<char>, c: char, max: nat)
    requires
        '0' <= c <= '9',
    ensures
        ({
            let d = (c as int - '0' as int) as nat;
            &&& parse_unsigned(seq![c], max) == if d <= max {
                Some(d)
            } else {
                None
            }
            &&& parse_unsigned(seq!['+', c], max) == if d <= max {
                Some(d)
            } else {
                None
            }
            &&& match parse_unsigned(s, max) {
                Some(n) => parse_unsigned(s.push(c), max) == if 10 * n + d <= max {
                    Some(10 * n + d)
                } else {
                    None
                },
                None => s.len() > 0 && s != seq!['+'] ==> parse_unsigned(s.push(c), max) is None,
            }
        }),
{
    let one = seq![c];
    assert(one.drop_last() =~= Seq::<char>::empty());
    assert(digits_value(one.drop_last()) == 0);
    assert(is_digit(one[0]));
    assert(unsigned_digits(one) == one);
    assert(unsigned_digits(seq!['+', c]) =~= one);
    let before = unsigned_digits(s);
    let after = unsigned_digits(s.push(c));
    if s.len() > 0 {
        assert(after =~= before.push(c));
        assert(after.drop_last() =~= before);
        if all_digits(before) {
            assert forall|i: int| 0 <= i < after.len() implies #[trigger] is_digit(after[i]) by {
                if i < before.len() {
                    assert(is_digit(before[i]));
                }
            }
        } else {
            let i = choose|i: int| 0 <= i < before.len() && !(#[trigger] is_digit(before[i]));
            assert(!is_digit(after[i]));
        }
        if before.len() == 0 {
            assert(s =~= seq!['+']);
        }
    }
}

/// Nothing is no number, nor is a sign alone, nor a text that holds anything but
/// digits behind its sign.
pub proof fn law_what_is_no_number(s: Seq<char>, i: int, max: nat)
    requires
        s.len() == 0 || s == seq!['+'] || 0 <= i < s.len() && !('0' <= s[i] <= '9') && (i > 0
            || s[0] != '+'),
    ensures
        parse_unsigned(s, max) is None,
{
    let digits = unsigned_digits(s);
    if s.len() > 0 && s != seq!['+'] {
        let k = if s[0] == '+' {
            i - 1
        } else {
            i
        };
        assert(digits[k] == s[i]);
        assert(!is_digit(digits[k]));
    }
}

} // verus!
