//! Decimal rendering of unsigned integers into strings.
use vstd::prelude::*;
use vstd::arithmetic::div_mod::lemma_div_denominator;
use vstd::arithmetic::power::{lemma_pow_positive, pow};

verus! {

/// The character of the decimal digit `d`, for `d < 10`.
pub open spec fn digit_char(d: nat) -> char {
    (48 + d) as char
}

/// Whether `c` is one of the characters `'0'..='9'`.
pub open spec fn is_digit(c: char) -> bool {
    48 <= (c as int) <= 57
}

/// The decimal representation of `n`: no sign, no leading zeros, `"0"` for zero.
pub open spec fn decimal(n: nat) -> Seq<char>
    decreases n,
{
    if n < 10 {
        seq![digit_char(n)]
    } else {
        decimal(n / 10).push(digit_char(n % 10))
    }
}

/// The number that a string of decimal digits denotes.
pub open spec fn digits_value(s: Seq<char>) -> nat
    decreases s.len(),
{
    if s.len() == 0 {
        0
    } else {
        digits_value(s.drop_last()) * 10 + ((s.last() as int) - 48) as nat
    }
}

/// The decimal representation of `n` is a non-empty string of digits that
/// reads back as `n`.
pub proof fn lemma_decimal_reads_back(n: nat)
    ensures
        decimal(n).len() >= 1,
        forall|i: int| 0 <= i < decimal(n).len() ==> is_digit(#[trigger] decimal(n)[i]),
        digits_value(decimal(n)) == n,
    decreases n,
{
    if n >= 10 {
        lemma_decimal_reads_back(n / 10);
        let prefix = decimal(n / 10);
        assert(decimal(n).drop_last() =~= prefix);
        assert forall|i: int| 0 <= i < decimal(n).len() implies is_digit(#[trigger] decimal(n)[i]) by {
            if i < prefix.len() {
                assert(decimal(n)[i] == prefix[i]);
            }
        }
        assert((digit_char(n % 10) as int) == 48 + n % 10);
        assert(n == (n / 10) * 10 + n % 10);
        assert(decimal(n).last() == digit_char(n % 10));
        assert(digits_value(decimal(n)) == digits_value(prefix) * 10 + (n % 10));
    } else {
        assert(decimal(n).drop_last() =~= Seq::<char>::empty());
        assert((digit_char(n) as int) == 48 + n);
        assert(digits_value(decimal(n)) == digits_value(Seq::<char>::empty()) * 10 + n);
    }
}

/// Two numbers with the same decimal representation are equal.
pub proof fn lemma_decimal_injective(a: nat, b: nat)
    requires
        decimal(a) == decimal(b),
    ensures
        a == b,
{
    lemma_decimal_reads_back(a);
    lemma_decimal_reads_back(b);
}

/// The decimal representation of `n` has the fewest digits that can hold `n`
/// (`10^(len-1) <= n < 10^len`, or the single digit of zero), and its `i`-th
/// character is the digit `(n / 10^(len-1-i)) % 10`.
pub proof fn lemma_decimal_digits(n: nat)
    ensures
        decimal(n).len() >= 1,
        n < pow(10, decimal(n).len()),
        decimal(n).len() > 1 ==> pow(10, (decimal(n).len() - 1) as nat) <= n,
        forall|i: int|
            0 <= i < decimal(n).len() ==> (#[trigger] decimal(n)[i]) as int == 48 + (n as int / pow(
                10,
                (decimal(n).len() - 1 - i) as nat,
            )) % 10,
    decreases n,
{
    reveal(pow);
    if n < 10 {
        assert(pow(10, 0) == 1);
        assert(pow(10, 1) == 10 * pow(10, 0));
        assert((digit_char(n) as int) == 48 + n);
        assert forall|i: int| 0 <= i < decimal(n).len() implies (#[trigger] decimal(n)[i]) as int
            == 48 + (n as int / pow(10, (decimal(n).len() - 1 - i) as nat)) % 10 by {
            assert(i == 0);
        }
    } else {
        let m = n / 10;
        let d = n % 10;
        lemma_decimal_digits(m);
        let prev = decimal(m);
        let k = prev.len();
        assert(decimal(n) == prev.push(digit_char(d)));
        lemma_pow_positive(10, k);
        assert(pow(10, k + 1) == 10 * pow(10, k));
        assert(n == 10 * m + d);
        assert(n < pow(10, k + 1)) by (nonlinear_arith)
            requires
                n == 10 * m + d,
                d < 10,
                m < pow(10, k),
                pow(10, k + 1) == 10 * pow(10, k),
        ;
        if k > 1 {
            assert(pow(10, k) == 10 * pow(10, (k - 1) as nat));
        } else {
            assert(pow(10, 1) == 10 * pow(10, 0));
        }
        assert(pow(10, k) <= n);
        assert forall|i: int| 0 <= i < decimal(n).len() implies (#[trigger] decimal(n)[i]) as int
            == 48 + (n as int / pow(10, (decimal(n).len() - 1 - i) as nat)) % 10 by {
            if i < k {
                let e = (k - 1 - i) as nat;
                lemma_pow_positive(10, e);
                assert(decimal(n)[i] == prev[i]);
                assert(prev[i] as int == 48 + (m as int / pow(10, e)) % 10);
                lemma_div_denominator(n as int, 10, pow(10, e));
                assert(pow(10, e + 1) == 10 * pow(10, e));
                assert((decimal(n).len() - 1 - i) as nat == e + 1);
            } else {
                assert(i == k);
                assert(decimal(n)[i] == digit_char(d));
                assert((digit_char(d) as int) == 48 + d);
                assert((decimal(n).len() - 1 - i) as nat == 0);
                assert(pow(10, 0) == 1);
            }
        }
    }
}

/// The character of the digit `d`.
fn digit(d: usize) -> (c: char)
    requires
        d < 10,
    ensures
        c == digit_char(d as nat),
{
    ((48 + d) as u8) as char
}

/// Appends to `s` the decimal representation of `n`.
pub fn push_decimal(s: &mut String, n: usize)
    ensures
        final(s)@ == old(s)@ + decimal(n as nat),
    decreases n,
{
    if n >= 10 {
        push_decimal(s, n / 10);
    }
    let d = digit(n % 10);
    s.push(d);
    proof {
        if n >= 10 {
            assert(decimal(n as nat) == decimal((n / 10) as nat).push(digit_char((n % 10) as nat)));
        }
    }
}

/// `String::push` of std appends the character `ch` at the end of the string.
pub assume_specification[ String::push ](s: &mut String, ch: char)
    ensures
        final(s)@ == old(s)@.push(ch),
;

} // verus!
