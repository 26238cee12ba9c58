use vstd::prelude::*;
use vstd::arithmetic::power::pow;

verus! {

/// `pow(10, e)`: the decimal scale factor for `e` digits.
pub open spec fn pow10(e: nat) -> int {
    pow(10, e)
}

/// The canonical decimal numeral of a nonnegative integer, as ASCII bytes:
/// most significant digit first, no sign, no leading zeroes (`0` is "0").
pub open spec fn dec_bytes(n: nat) -> Seq<u8>
    decreases n,
{
    if n < 10 {
        seq![(48 + n) as u8]
    } else {
        dec_bytes(n / 10) + seq![(48 + n % 10) as u8]
    }
}

/// The decimal numeral of `n` is never empty.
pub proof fn lemma_dec_bytes_nonempty(n: nat)
    ensures
        dec_bytes(n).len() >= 1,
    decreases n,
{
    if n >= 10 {
        lemma_dec_bytes_nonempty(n / 10);
    }
}

/// A numeral's length is determined by the power-of-ten band its value lies
/// in: `e + 1` digits when `10^e <= n < 10^(e+1)`.
pub proof fn lemma_dec_bytes_len(n: nat, e: nat)
    requires
        pow10(e) <= n < pow10((e + 1) as nat),
    ensures
        dec_bytes(n).len() == e + 1,
    decreases e,
{
    vstd::arithmetic::power::lemma_pow0(10);
    vstd::arithmetic::power::lemma_pow1(10);
    if e == 0 {
    } else {
        vstd::arithmetic::power::lemma_pow_adds(10, 1, (e - 1) as nat);
        vstd::arithmetic::power::lemma_pow_adds(10, 1, e);
        vstd::arithmetic::power::lemma_pow_positive(10, (e - 1) as nat);
        vstd::arithmetic::power::lemma_pow_positive(10, e);
        assert(pow10(e) == 10 * pow10((e - 1) as nat));
        assert(pow10((e + 1) as nat) == 10 * pow10(e));
        vstd::arithmetic::div_mod::lemma_div_is_ordered(
            pow10(e),
            n as int,
            10,
        );
        vstd::arithmetic::div_mod::lemma_div_multiples_vanish(pow10((e - 1) as nat), 10);
        vstd::arithmetic::div_mod::lemma_div_is_ordered(
            n as int,
            10 * pow10(e) - 1,
            10,
        );
        vstd::arithmetic::div_mod::lemma_div_multiples_vanish_fancy(pow10(e) - 1, 9, 10);
        assert(10 * (pow10(e) - 1) + 9 == 10 * pow10(e) - 1) by {
            vstd::arithmetic::mul::lemma_mul_is_distributive_sub(10, pow10(e), 1);
        }
        assert(pow10((e - 1) as nat) <= n / 10 < pow10(e));
        lemma_dec_bytes_len(n / 10, (e - 1) as nat);
    }
}

/// The byte at distance `i` from the numeral's right end is the ASCII form
/// of the decimal digit `(n / 10^i) % 10`.
pub proof fn lemma_dec_bytes_index(n: nat, i: nat)
    requires
        i < dec_bytes(n).len(),
    ensures
        dec_bytes(n)[dec_bytes(n).len() - 1 - i] == 48 + (n as int / pow10(i)) % 10,
    decreases i,
{
    vstd::arithmetic::power::lemma_pow0(10);
    vstd::arithmetic::power::lemma_pow1(10);
    if i == 0 {
        if n < 10 {
            vstd::arithmetic::div_mod::lemma_small_mod(n, 10);
            vstd::arithmetic::div_mod::lemma_div_basics_1(n as int);
        } else {
            vstd::arithmetic::div_mod::lemma_div_basics_1(n as int);
        }
    } else {
        lemma_dec_bytes_nonempty(n / 10);
        assert(n >= 10) by {
            if n < 10 {
                assert(dec_bytes(n).len() == 1);
            }
        }
        lemma_dec_bytes_index(n / 10, (i - 1) as nat);
        vstd::arithmetic::power::lemma_pow_positive(10, (i - 1) as nat);
        vstd::arithmetic::div_mod::lemma_div_denominator(
            n as int,
            10,
            pow10((i - 1) as nat),
        );
        vstd::arithmetic::power::lemma_pow_adds(10, 1, (i - 1) as nat);
        assert((n as int / 10) / pow10((i - 1) as nat) == n as int / pow10(i));
    }
}

} // verus!
