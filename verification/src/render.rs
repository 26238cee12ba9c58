use vstd::prelude::*;
use num_bigint::BigInt;
use crate::assembler::PiApproximation;
use crate::bigint;
use crate::bigint::int_of;
use crate::decimal::{dec_bytes, lemma_dec_bytes_index, lemma_dec_bytes_len, pow10};

verus! {

/// Fractional decimal digit `i` (0-based) of the value `v / 10^f`.
pub open spec fn frac_digit(v: int, f: nat, i: nat) -> int
    recommends
        i < f,
{
    (v / pow10((f - i - 1) as nat)) % 10
}

/// The ASCII byte of fractional digit `i`.
pub open spec fn digit_byte(v: int, f: nat, i: nat) -> u8 {
    (48 + frac_digit(v, f, i)) as u8
}

/// The separator written after the `j`-th digit (1-based) when more digits
/// follow: a line break every 50 digits, a space every 10.
pub open spec fn sep_after(j: nat, d: nat) -> Seq<u8> {
    if j < d && j % 50 == 0 {
        seq![10u8]
    } else if j < d && j % 10 == 0 {
        seq![32u8]
    } else {
        Seq::empty()
    }
}

/// The rendered fractional digits from position `j` on.
pub open spec fn render_from(v: int, f: nat, d: nat, j: nat) -> Seq<u8>
    decreases d - j,
{
    if j >= d {
        Seq::empty()
    } else {
        seq![digit_byte(v, f, j)] + sep_after(j + 1, d) + render_from(v, f, d, (j + 1) as nat)
    }
}

/// The full rendering of `d` fractional digits of `v / 10^f`: a leading
/// "3.", then the digits in blocks of 10 separated by a space, with a line
/// break every 50 digits.
pub open spec fn rendered(v: int, f: nat, d: nat) -> Seq<u8> {
    seq![51u8, 46u8] + render_from(v, f, d, 0)
}

/// One step of streaming extraction: multiplying the remainder
/// `(v * 10^j) % 10^f` by ten and dividing by `10^f` yields fractional digit
/// `j`, and the division's remainder is the next streaming remainder.
proof fn lemma_stream_step(v: int, f: nat, j: nat)
    requires
        0 <= v,
        j < f,
    ensures
        ((v * pow10(j)) % pow10(f)) * 10 / pow10(f) == frac_digit(v, f, j),
        (((v * pow10(j)) % pow10(f)) * 10) % pow10(f) == (v * pow10((j + 1) as nat)) % pow10(f),
{
    vstd::arithmetic::power::lemma_pow1(10);
    vstd::arithmetic::power::lemma_pow_positive(10, j);
    vstd::arithmetic::power::lemma_pow_positive(10, f);
    vstd::arithmetic::power::lemma_pow_positive(10, (f - j - 1) as nat);
    vstd::arithmetic::power::lemma_pow_positive(10, (f - 1) as nat);
    let pj = pow10(j);
    let t = pow10(f);
    let g = pow10((f - 1) as nat);
    let h = pow10((f - j - 1) as nat);
    let x = v * pj;
    let r = x % t;
    vstd::arithmetic::mul::lemma_mul_nonnegative(v, pj);
    // t == 10 * g and g == pj * h
    assert(t == 10 * g) by {
        vstd::arithmetic::power::lemma_pow_adds(10, 1, (f - 1) as nat);
    }
    assert(g == pj * h) by {
        vstd::arithmetic::power::lemma_pow_adds(10, j, (f - j - 1) as nat);
    }
    // breakdown: r == g * ((x / g) % 10) + x % g
    vstd::arithmetic::div_mod::lemma_breakdown(x, g, 10);
    assert(g * 10 == 10 * g);
    let dig = (x / g) % 10;
    let r2 = x % g;
    assert(r == g * dig + r2);
    vstd::arithmetic::div_mod::lemma_mod_bound(x, g);
    vstd::arithmetic::div_mod::lemma_mod_bound(x, t);
    // r * 10 == (10 * g) * dig + 10 * r2, so division by t == 10 * g gives dig
    assert(r * 10 == (10 * g) * dig + 10 * r2) by {
        vstd::arithmetic::mul::lemma_mul_is_distributive_add_other_way(10, g * dig, r2);
        vstd::arithmetic::mul::lemma_mul_is_associative(g, dig, 10);
        vstd::arithmetic::mul::lemma_mul_is_commutative(g * dig, 10);
        vstd::arithmetic::mul::lemma_mul_is_commutative(g, 10);
        vstd::arithmetic::mul::lemma_mul_is_associative(10, g, dig);
        vstd::arithmetic::mul::lemma_mul_is_commutative(r2, 10);
    }
    assert(r * 10 / t == dig) by {
        vstd::arithmetic::div_mod::lemma_div_multiples_vanish_fancy(dig, 10 * r2, 10 * g);
    }
    // dig == frac_digit(v, f, j): x / g == v / h
    assert(x / g == v / h) by {
        vstd::arithmetic::div_mod::lemma_div_multiples_vanish_quotient(pj, v, h);
        vstd::arithmetic::mul::lemma_mul_is_commutative(pj, v);
    }
    // second clause: (r * 10) % t == (x * 10) % t == (v * pow10(j + 1)) % t
    vstd::arithmetic::div_mod::lemma_fundamental_div_mod(x, t);
    let a = x / t;
    assert(x * 10 == t * (a * 10) + r * 10) by {
        vstd::arithmetic::mul::lemma_mul_is_distributive_add_other_way(10, t * a, r);
        vstd::arithmetic::mul::lemma_mul_is_associative(t, a, 10);
    }
    assert((t * (a * 10) + r * 10) % t == (r * 10) % t) by {
        vstd::arithmetic::div_mod::lemma_mod_multiples_vanish(a * 10, r * 10, t);
    }
    assert(v * pow10((j + 1) as nat) == x * 10) by {
        vstd::arithmetic::power::lemma_pow_adds(10, j, 1);
        vstd::arithmetic::mul::lemma_mul_is_associative(v, pj, 10);
    }
}

/// The single-digit boundary: for a value whose first fractional digit is 1
/// (as holds of any value that approximates pi to at least one digit), a
/// one-digit rendering is exactly "3.1" - the digit is obtained by
/// truncation, with nothing rounded up and no separator emitted.  Both
/// extraction modes ensure `rendered`, so this pins their output too.
pub proof fn lemma_one_digit_render(v: int, f: nat)
    requires
        f >= 1,
        31 * pow10((f - 1) as nat) <= v < 32 * pow10((f - 1) as nat),
    ensures
        rendered(v, f, 1) == seq![51u8, 46u8, 49u8],
{
    let p = pow10((f - 1) as nat);
    vstd::arithmetic::power::lemma_pow_positive(10, (f - 1) as nat);
    vstd::arithmetic::div_mod::lemma_div_is_ordered(31 * p, v, p);
    vstd::arithmetic::div_mod::lemma_div_by_multiple(31, p);
    vstd::arithmetic::mul::lemma_mul_is_commutative(31, p);
    vstd::arithmetic::div_mod::lemma_div_is_ordered(v, 32 * p - 1, p);
    vstd::arithmetic::div_mod::lemma_div_multiples_vanish_fancy(31, p - 1, p);
    assert(p * 31 + (p - 1) == 32 * p - 1);
    assert(v / p == 31);
    assert(frac_digit(v, f, 0) == 1);
    assert(digit_byte(v, f, 0) == 49u8);
    assert(sep_after(1, 1) =~= Seq::<u8>::empty());
    assert(render_from(v, f, 1, 1) =~= Seq::<u8>::empty());
    assert(render_from(v, f, 1, 0) =~= seq![49u8]);
    assert(rendered(v, f, 1) =~= seq![51u8, 46u8, 49u8]);
}

/// Streaming extraction: starting from the fractional remainder of the
/// approximation, repeatedly multiply by ten, take the integer part as the
/// next digit, and keep the remainder.  Peak memory stays bounded by the
/// remainder, independent of the digit count.
pub fn render_streaming(a: &PiApproximation) -> (out: Vec<u8>)
    requires
        a.wf(),
    ensures
        out@ == rendered(int_of(a.scaled), a.frac_digits as nat, a.digits as nat),
{
    let ghost v = int_of(a.scaled);
    let ghost f_g = a.frac_digits as nat;
    let ghost d_g = a.digits as nat;
    let d: u64 = a.digits;
    let f: u64 = a.frac_digits;
    let ten = bigint::from_u64(10);
    let pow_f = bigint::pow_u32(&ten, f as u32);
    proof {
        vstd::arithmetic::power::lemma_pow_positive(10, f_g);
        vstd::arithmetic::power::lemma_pow0(10);
        vstd::arithmetic::mul::lemma_mul_basics(v);
    }
    let (_ipart, first_rem) = bigint::div_rem(&a.scaled, &pow_f);
    let mut rem = first_rem;
    let mut out: Vec<u8> = Vec::new();
    out.push(51);
    out.push(46);
    proof {
        assert(out@ =~= seq![51u8, 46u8]);
        assert(out@ + render_from(v, f_g, d_g, 0) =~= rendered(v, f_g, d_g));
        assert(v * pow10(0) == v);
    }
    let mut j: u64 = 0;
    while j < d
        invariant
            a.wf(),
            v == int_of(a.scaled),
            f_g == a.frac_digits as nat,
            d_g == a.digits as nat,
            d == a.digits,
            f == a.frac_digits,
            0 <= v,
            int_of(ten) == 10,
            int_of(pow_f) == pow10(f_g),
            j <= d,
            int_of(rem) == (v * pow10(j as nat)) % pow10(f_g),
            out@ + render_from(v, f_g, d_g, j as nat) == rendered(v, f_g, d_g),
        decreases d - j,
    {
        proof {
            vstd::arithmetic::power::lemma_pow_positive(10, f_g);
            vstd::arithmetic::power::lemma_pow_positive(10, j as nat);
            vstd::arithmetic::mul::lemma_mul_nonnegative(v, pow10(j as nat));
            vstd::arithmetic::div_mod::lemma_mod_bound(v * pow10(j as nat), pow10(f_g));
            vstd::arithmetic::mul::lemma_mul_nonnegative(int_of(rem), 10);
            lemma_stream_step(v, f_g, j as nat);
        }
        let t = bigint::mul(&rem, &ten);
        let (q_dig, next_rem) = bigint::div_rem(&t, &pow_f);
        let dig: u64 = match bigint::to_u64(&q_dig) {
            Some(x) => x,
            None => 0,
        };
        assert(dig == frac_digit(v, f_g, j as nat));
        assert(0 <= frac_digit(v, f_g, j as nat) < 10) by {
            vstd::arithmetic::div_mod::lemma_mod_bound(
                v / pow10((f_g - j - 1) as nat),
                10,
            );
        }
        let ghost out_before = out@;
        out.push(48 + dig as u8);
        j = j + 1;
        if j < d && j % 50 == 0 {
            out.push(10);
        } else if j < d && j % 10 == 0 {
            out.push(32);
        }
        rem = next_rem;
        proof {
            assert(out@ =~= out_before + seq![digit_byte(v, f_g, (j - 1) as nat)] + sep_after(
                j as nat,
                d_g,
            ));
            assert(render_from(v, f_g, d_g, (j - 1) as nat) == seq![
                digit_byte(v, f_g, (j - 1) as nat),
            ] + sep_after(j as nat, d_g) + render_from(v, f_g, d_g, j as nat));
            assert(out@ + render_from(v, f_g, d_g, j as nat) =~= out_before + render_from(
                v,
                f_g,
                d_g,
                (j - 1) as nat,
            ));
        }
    }
    proof {
        assert(render_from(v, f_g, d_g, d_g) =~= Seq::<u8>::empty());
        assert(out@ + Seq::<u8>::empty() =~= out@);
    }
    out
}

/// Chunked extraction: convert the approximation to its full digit string
/// once, then emit fixed-size runs of digits from it.  Memory stays bounded
/// by the one digit string plus the output.  The output is byte-identical to
/// streaming extraction: both modes ensure the same `rendered` sequence.
pub fn render_chunked(a: &PiApproximation, chunk_size: u64) -> (out: Vec<u8>)
    requires
        a.wf(),
        chunk_size >= 1,
    ensures
        out@ == rendered(int_of(a.scaled), a.frac_digits as nat, a.digits as nat),
{
    let ghost v = int_of(a.scaled);
    let ghost f_g = a.frac_digits as nat;
    let ghost d_g = a.digits as nat;
    let d: u64 = a.digits;
    let f: u64 = a.frac_digits;
    proof {
        vstd::arithmetic::power::lemma_pow_positive(10, f_g);
        vstd::arithmetic::power::lemma_pow_adds(10, 1, f_g);
        vstd::arithmetic::power::lemma_pow1(10);
        assert(pow10((f_g + 1) as nat) == 10 * pow10(f_g));
    }
    let bytes = bigint::to_decimal(&a.scaled);
    proof {
        lemma_dec_bytes_len(v as nat, f_g);
        assert forall|jj: int| 0 <= jj < f_g implies #[trigger] bytes@[1 + jj] == digit_byte(
            v,
            f_g,
            jj as nat,
        ) by {
            lemma_dec_bytes_index(v as nat, (f_g - 1 - jj) as nat);
            vstd::arithmetic::power::lemma_pow_positive(10, (f_g - 1 - jj) as nat);
            vstd::arithmetic::div_mod::lemma_div_pos_is_pos(v, pow10((f_g - 1 - jj) as nat));
            vstd::arithmetic::div_mod::lemma_mod_bound(v / pow10((f_g - 1 - jj) as nat), 10);
        }
    }
    let mut out: Vec<u8> = Vec::new();
    out.push(51);
    out.push(46);
    proof {
        assert(out@ =~= seq![51u8, 46u8]);
        assert(out@ + render_from(v, f_g, d_g, 0) =~= rendered(v, f_g, d_g));
    }
    let mut pos: u64 = 0;
    while pos < d
        invariant
            a.wf(),
            v == int_of(a.scaled),
            f_g == a.frac_digits as nat,
            d_g == a.digits as nat,
            d == a.digits,
            f == a.frac_digits,
            pos <= d,
            chunk_size >= 1,
            bytes@.len() == f_g + 1,
            forall|jj: int|
                0 <= jj < f_g ==> #[trigger] bytes@[1 + jj] == digit_byte(v, f_g, jj as nat),
            out@ + render_from(v, f_g, d_g, pos as nat) == rendered(v, f_g, d_g),
        decreases d - pos,
    {
        let chunk_end: u64 = if d - pos < chunk_size {
            d
        } else {
            pos + chunk_size
        };
        while pos < chunk_end
            invariant
                a.wf(),
                v == int_of(a.scaled),
                f_g == a.frac_digits as nat,
                d_g == a.digits as nat,
                d == a.digits,
                f == a.frac_digits,
                pos <= chunk_end <= d,
                chunk_size >= 1,
                bytes@.len() == f_g + 1,
                forall|jj: int|
                    0 <= jj < f_g ==> #[trigger] bytes@[1 + jj] == digit_byte(v, f_g, jj as nat),
                out@ + render_from(v, f_g, d_g, pos as nat) == rendered(v, f_g, d_g),
            decreases chunk_end - pos,
        {
            let ghost out_before = out@;
            let b: u8 = bytes[(pos + 1) as usize];
            out.push(b);
            pos = pos + 1;
            if pos < d && pos % 50 == 0 {
                out.push(10);
            } else if pos < d && pos % 10 == 0 {
                out.push(32);
            }
            proof {
                assert(bytes@[1 + (pos - 1)] == digit_byte(v, f_g, (pos - 1) as nat));
                assert(out@ =~= out_before + seq![digit_byte(v, f_g, (pos - 1) as nat)]
                    + sep_after(pos as nat, d_g));
                assert(render_from(v, f_g, d_g, (pos - 1) as nat) == seq![
                    digit_byte(v, f_g, (pos - 1) as nat),
                ] + sep_after(pos as nat, d_g) + render_from(v, f_g, d_g, pos as nat));
                assert(out@ + render_from(v, f_g, d_g, pos as nat) =~= out_before + render_from(
                    v,
                    f_g,
                    d_g,
                    (pos - 1) as nat,
                ));
            }
        }
    }
    proof {
        assert(render_from(v, f_g, d_g, d_g) =~= Seq::<u8>::empty());
        assert(out@ + Seq::<u8>::empty() =~= out@);
    }
    out
}

} // verus!
