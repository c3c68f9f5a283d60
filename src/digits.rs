//! The mathematical model of an arbitrary-precision natural number: a
//! little-endian sequence of 64-bit digits.
use vstd::prelude::*;

verus! {

/// The radix of one digit.
pub open spec fn digit_base() -> nat {
    0x1_0000_0000_0000_0000nat
}

/// `digit_base()` raised to the power `n`.
pub open spec fn base_pow(n: nat) -> nat
    decreases n,
{
    if n == 0 {
        1
    } else {
        digit_base() * base_pow((n - 1) as nat)
    }
}

/// The number denoted by `s`, whose digit at index 0 is the least significant.
pub open spec fn value(s: Seq<u64>) -> nat
    decreases s.len(),
{
    if s.len() == 0 {
        0
    } else {
        value(s.drop_last()) + s.last() as nat * base_pow((s.len() - 1) as nat)
    }
}

/// No zero digit stands at the most significant end; zero is the empty sequence.
pub open spec fn normalized(s: Seq<u64>) -> bool {
    s.len() == 0 || s.last() != 0
}

/// `s` with its most significant zero digits removed.
pub open spec fn strip_trailing_zeros(s: Seq<u64>) -> Seq<u64>
    decreases s.len(),
{
    if s.len() > 0 && s.last() == 0 {
        strip_trailing_zeros(s.drop_last())
    } else {
        s
    }
}

/// `a` and `b` have the same length and `i` is the most significant index
/// at which their digits differ.
pub open spec fn differs_first_at(a: Seq<u64>, b: Seq<u64>, i: int) -> bool {
    &&& a.len() == b.len()
    &&& 0 <= i < a.len()
    &&& a[i] != b[i]
    &&& forall|k: int| i < k < a.len() ==> a[k] == b[k]
}

proof fn lemma_base_pow_positive(n: nat)
    ensures
        base_pow(n) >= 1,
    decreases n,
{
    if n > 0 {
        lemma_base_pow_positive((n - 1) as nat);
        let p = base_pow((n - 1) as nat);
        assert(digit_base() * p >= p) by (nonlinear_arith)
            requires
                p >= 1,
                digit_base() >= 1,
        ;
    }
}

proof fn lemma_base_pow_monotonic(m: nat, n: nat)
    requires
        m <= n,
    ensures
        base_pow(m) <= base_pow(n),
    decreases n,
{
    if m < n {
        lemma_base_pow_monotonic(m, (n - 1) as nat);
        lemma_base_pow_positive((n - 1) as nat);
        let p = base_pow((n - 1) as nat);
        assert(digit_base() * p >= p) by (nonlinear_arith)
            requires
                p >= 1,
                digit_base() >= 1,
        ;
    }
}

/// A sequence of `n` digits denotes less than `digit_base()` to the `n`.
proof fn lemma_value_upper_bound(s: Seq<u64>)
    ensures
        value(s) < base_pow(s.len()),
    decreases s.len(),
{
    if s.len() > 0 {
        let n = (s.len() - 1) as nat;
        lemma_value_upper_bound(s.drop_last());
        let p = base_pow(n);
        let d = s.last() as nat;
        let v = value(s.drop_last());
        assert(v + d * p < digit_base() * p) by (nonlinear_arith)
            requires
                v < p,
                d < digit_base(),
        ;
    }
}

/// A sequence of `n` digits whose last digit is not zero denotes at least
/// `digit_base()` to the `n - 1`.
proof fn lemma_value_lower_bound(s: Seq<u64>)
    requires
        s.len() > 0,
        s.last() != 0,
    ensures
        base_pow((s.len() - 1) as nat) <= value(s),
{
    let p = base_pow((s.len() - 1) as nat);
    let d = s.last() as nat;
    assert(p <= d * p) by (nonlinear_arith)
        requires
            d >= 1,
    ;
}

/// Of two normalized sequences of different lengths, the shorter denotes the
/// smaller number, whatever their digits.
pub proof fn lemma_shorter_is_smaller(a: Seq<u64>, b: Seq<u64>)
    requires
        normalized(a),
        normalized(b),
        a.len() < b.len(),
    ensures
        value(a) < value(b),
{
    lemma_value_upper_bound(a);
    lemma_base_pow_monotonic(a.len(), (b.len() - 1) as nat);
    lemma_value_lower_bound(b);
}

/// Of two sequences of one length, the one with the smaller digit at the most
/// significant index where they differ denotes the smaller number.
pub proof fn lemma_first_difference_decides(a: Seq<u64>, b: Seq<u64>, i: int)
    requires
        differs_first_at(a, b, i),
        a[i] < b[i],
    ensures
        value(a) < value(b),
    decreases a.len(),
{
    let n = a.len() - 1;
    let p = base_pow(n as nat);
    if i == n {
        lemma_value_upper_bound(a.drop_last());
        let va = value(a.drop_last());
        let vb = value(b.drop_last());
        let da = a.last() as nat;
        let db = b.last() as nat;
        assert(va + da * p < vb + db * p) by (nonlinear_arith)
            requires
                va < p,
                da < db,
        ;
    } else {
        assert(differs_first_at(a.drop_last(), b.drop_last(), i));
        lemma_first_difference_decides(a.drop_last(), b.drop_last(), i);
        assert(a.last() == b.last());
    }
}

/// Removing the most significant zero digits leaves the number unchanged and
/// gives a normalized sequence.
pub proof fn lemma_strip_trailing_zeros(s: Seq<u64>)
    ensures
        value(strip_trailing_zeros(s)) == value(s),
        normalized(strip_trailing_zeros(s)),
    decreases s.len(),
{
    if s.len() > 0 && s.last() == 0 {
        lemma_strip_trailing_zeros(s.drop_last());
    }
}

/// A normalized sequence has no zero digits to remove.
pub proof fn lemma_strip_normalized(s: Seq<u64>)
    requires
        normalized(s),
    ensures
        strip_trailing_zeros(s) == s,
{
}

/// Appending zero digits at the most significant end changes nothing once the
/// sequence is normalized.
pub proof fn lemma_trailing_zeros_ignored(s: Seq<u64>, zeros: Seq<u64>)
    requires
        forall|i: int| 0 <= i < zeros.len() ==> zeros[i] == 0,
    ensures
        strip_trailing_zeros(s + zeros) == strip_trailing_zeros(s),
    decreases zeros.len(),
{
    if zeros.len() > 0 {
        let shorter = zeros.drop_last();
        assert((s + zeros).drop_last() =~= s + shorter);
        lemma_trailing_zeros_ignored(s, shorter);
    } else {
        assert(s + zeros =~= s);
    }
}

} // verus!
