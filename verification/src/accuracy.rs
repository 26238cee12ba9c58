use vstd::prelude::*;
use vstd::string::StrSliceExecFns;

verus! {

/// `c` is a decimal digit character.
pub open spec fn is_dec_digit(c: char) -> bool {
    48 <= c as u32 <= 57
}

/// The decimal digit characters of `s`, in order, with everything else
/// (decimal point, spaces, line breaks) dropped.
pub open spec fn digit_chars(s: Seq<char>) -> Seq<char>
    decreases s.len(),
{
    if s.len() == 0 {
        Seq::empty()
    } else {
        digit_chars(s.drop_last()) + (if is_dec_digit(s.last()) {
            seq![s.last()]
        } else {
            Seq::empty()
        })
    }
}

/// The embedded reference constant: pi to 100 decimal digits.
pub open spec fn reference_view() -> Seq<char> {
    "3.1415926535897932384626433832795028841971693993751058209749445923078164062862089986280348253421170679"@
}

/// The smaller of two integers.
pub open spec fn min_int(a: int, b: int) -> int {
    if a <= b {
        a
    } else {
        b
    }
}

/// The first index in `[i, n)` where `a` and `b` differ, or `n` if they
/// agree on the whole range.
pub open spec fn first_divergence(a: Seq<char>, b: Seq<char>, i: nat, n: nat) -> nat
    recommends
        i <= n,
        n <= a.len(),
        n <= b.len(),
    decreases n - i,
{
    if i >= n {
        n
    } else if a[i as int] != b[i as int] {
        i
    } else {
        first_divergence(a, b, (i + 1) as nat, n)
    }
}

/// The embedded 100-digit reference constant of pi, with its decimal point.
pub fn reference_pi() -> (r: &'static str)
    ensures
        r@ == reference_view(),
{
    "3.1415926535897932384626433832795028841971693993751058209749445923078164062862089986280348253421170679"
}

/// Collect the decimal digit characters of `s`, in order.
pub fn filter_digit_chars(s: &str) -> (r: Vec<char>)
    ensures
        r@ == digit_chars(s@),
{
    let n = s.unicode_len();
    let mut r: Vec<char> = Vec::new();
    let mut i: usize = 0;
    while i < n
        invariant
            n == s@.len(),
            i <= n,
            r@ == digit_chars(s@.subrange(0, i as int)),
        decreases n - i,
    {
        let ghost before = r@;
        let c = s.get_char(i);
        let u = c as u32;
        if 48 <= u && u <= 57 {
            r.push(c);
        }
        i = i + 1;
        proof {
            let pre = s@.subrange(0, i as int);
            assert(pre.drop_last() =~= s@.subrange(0, i - 1));
            assert(pre.last() == s@[i - 1]);
            if is_dec_digit(s@[i - 1]) {
                assert(r@ =~= before + seq![s@[i - 1]]);
            } else {
                assert(r@ =~= before + Seq::<char>::empty());
            }
        }
    }
    proof {
        assert(s@.subrange(0, s@.len() as int) =~= s@);
    }
    r
}

/// Compare the leading digits of a rendered value against the embedded
/// reference constant, decimal points and formatting stripped.  Returns
/// whether the first `min(100, digits)` digits (bounded by both digit
/// sequences' lengths) all match, together with the index of the first
/// divergence, or the compare length when there is none.
pub fn verify_pi_accuracy(pi_str: &str, digits: usize) -> (r: (bool, usize))
    ensures
        ({
            let comp = digit_chars(pi_str@);
            let known = digit_chars(reference_view());
            let clen = min_int(
                min_int(100, digits as int),
                min_int(known.len() as int, comp.len() as int),
            );
            &&& r.1 == first_divergence(comp, known, 0, clen as nat)
            &&& r.0 == (r.1 == clen)
        }),
{
    let known_str = reference_pi();
    let known = filter_digit_chars(known_str);
    let comp = filter_digit_chars(pi_str);
    let mut clen: usize = 100;
    if digits < clen {
        clen = digits;
    }
    if known.len() < clen {
        clen = known.len();
    }
    if comp.len() < clen {
        clen = comp.len();
    }
    let mut i: usize = 0;
    while i < clen
        invariant
            i <= clen,
            clen <= known@.len(),
            clen <= comp@.len(),
            known@ == digit_chars(reference_view()),
            comp@ == digit_chars(pi_str@),
            clen == min_int(
                min_int(100, digits as int),
                min_int(known@.len() as int, comp@.len() as int),
            ),
            first_divergence(comp@, known@, 0, clen as nat) == first_divergence(
                comp@,
                known@,
                i as nat,
                clen as nat,
            ),
        decreases clen - i,
    {
        if comp[i] != known[i] {
            return (false, i);
        }
        i = i + 1;
    }
    (true, clen)
}

} // verus!
