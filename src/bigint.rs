//! A non-negative arbitrary-precision integer, held as its normalized digits.
use vstd::prelude::*;

use crate::digits::{
    base_pow, differs_first_at, lemma_first_difference_decides, lemma_shorter_is_smaller,
    lemma_strip_normalized, lemma_strip_trailing_zeros, normalized, strip_trailing_zeros, value,
};
use crate::minimum::Minimum;

verus! {

/// A natural number as little-endian 64-bit digits with no zero digit at the
/// most significant end.
#[derive(Debug)]
pub struct BigInt {
    data: Vec<u64>,
}

impl View for BigInt {
    type V = Seq<u64>;

    closed spec fn view(&self) -> Seq<u64> {
        self.data@
    }
}

/// Whether `min(a, b)` hands back `a`: exactly when `a` is not the larger.
pub open spec fn selects_first(a: Seq<u64>, b: Seq<u64>) -> bool {
    value(a) <= value(b)
}

/// Where `min(a, b)` hands back `a` and the two numbers differ, `min(b, a)`
/// hands back `a` as well: the choice follows the values, not the order of
/// the arguments.
pub proof fn lemma_min_antisymmetric(a: Seq<u64>, b: Seq<u64>)
    requires
        selects_first(a, b),
        value(a) != value(b),
    ensures
        !selects_first(b, a),
        value(a) < value(b),
{
}

/// Of two normalized sequences of different lengths, `min` hands back the
/// shorter one in either order.
pub proof fn lemma_shorter_selected(a: Seq<u64>, b: Seq<u64>)
    requires
        normalized(a),
        normalized(b),
        a.len() < b.len(),
    ensures
        selects_first(a, b),
        !selects_first(b, a),
{
    lemma_shorter_is_smaller(a, b);
}

impl BigInt {
    #[verifier::type_invariant]
    spec fn well_formed(&self) -> bool {
        normalized(self.data@)
    }

    /// The number `x`, as no digit when it is zero and one digit otherwise.
    pub fn new(x: u64) -> (r: BigInt)
        ensures
            r@ == (if x == 0 { Seq::<u64>::empty() } else { seq![x] }),
            value(r@) == x as nat,
    {
        if x == 0 {
            let r = BigInt { data: Vec::new() };
            assert(r@ =~= Seq::<u64>::empty());
            r
        } else {
            let r = BigInt { data: vec![x] };
            assert(r@ =~= seq![x]);
            assert(r@.drop_last() =~= Seq::<u64>::empty());
            assert(value(Seq::<u64>::empty()) == 0);
            assert(base_pow(0) == 1);
            assert(value(r@) == value(r@.drop_last()) + x as nat * base_pow(0));
            r
        }
    }

    /// The number that `v` denotes, least significant digit first; zero
    /// digits at the most significant end are dropped.
    pub fn from_vec(v: Vec<u64>) -> (r: BigInt)
        ensures
            r@ == strip_trailing_zeros(v@),
            value(r@) == value(v@),
    {
        let mut v = v;
        let ghost original = v@;
        while v.len() > 0 && v[v.len() - 1] == 0
            invariant
                strip_trailing_zeros(v@) == strip_trailing_zeros(original),
            decreases v@.len(),
        {
            v.pop();
        }
        proof {
            lemma_strip_normalized(v@);
            lemma_strip_trailing_zeros(original);
        }
        BigInt { data: v }
    }

    /// Whether the digits are normalized; always so for a `BigInt`.
    pub fn test_invariant(&self) -> (r: bool)
        ensures
            r == normalized(self@),
            r,
    {
        proof {
            use_type_invariant(self);
        }
        let n = self.data.len();
        n == 0 || self.data[n - 1] != 0
    }
}

impl Clone for BigInt {
    fn clone(&self) -> (r: BigInt)
        ensures
            r@ == self@,
    {
        proof {
            use_type_invariant(self);
        }
        let data = self.data.clone();
        assert(data@ =~= self.data@);
        BigInt { data }
    }
}

impl PartialEq for BigInt {
    fn eq(&self, other: &BigInt) -> (r: bool)
        ensures
            r == (self@ == other@),
    {
        let n = self.data.len();
        if n != other.data.len() {
            return false;
        }
        let mut i: usize = 0;
        while i < n
            invariant
                i <= n,
                n == self.data@.len(),
                n == other.data@.len(),
                forall|k: int| 0 <= k < i ==> self.data@[k] == other.data@[k],
            decreases n - i,
        {
            if self.data[i] != other.data[i] {
                return false;
            }
            i = i + 1;
        }
        assert(self.data@ =~= other.data@);
        true
    }
}

impl vstd::std_specs::cmp::PartialEqSpecImpl for BigInt {
    open spec fn obeys_eq_spec() -> bool {
        true
    }

    open spec fn eq_spec(&self, other: &BigInt) -> bool {
        self@ == other@
    }
}

impl Minimum for BigInt {
    open spec fn rank(&self) -> int {
        value(self@) as int
    }

    /// The smaller of the two by value, and `self` where they are equal.
    fn min<'a>(&'a self, other: &'a Self) -> (r: &'a Self)
        ensures
            r == (if selects_first(self@, other@) { self } else { other }),
            self@.len() < other@.len() ==> r == self,
            other@.len() < self@.len() ==> r == other,
            forall|i: int|
                #![trigger differs_first_at(self@, other@, i)]
                differs_first_at(self@, other@, i) ==> r == (if self@[i] < other@[i] {
                    self
                } else {
                    other
                }),
    {
        proof {
            use_type_invariant(self);
            use_type_invariant(other);
        }
        let n = self.data.len();
        if n < other.data.len() {
            proof {
                lemma_shorter_is_smaller(self@, other@);
            }
            self
        } else if n > other.data.len() {
            proof {
                lemma_shorter_is_smaller(other@, self@);
            }
            other
        } else {
            let mut idx: usize = n;
            while idx > 0
                invariant
                    idx <= n,
                    n == self.data@.len(),
                    n == other.data@.len(),
                    forall|k: int| idx <= k < n ==> self.data@[k] == other.data@[k],
                decreases idx,
            {
                let j = idx - 1;
                if self.data[j] < other.data[j] {
                    proof {
                        assert(differs_first_at(self@, other@, j as int));
                        lemma_first_difference_decides(self@, other@, j as int);
                    }
                    return self;
                } else if self.data[j] > other.data[j] {
                    proof {
                        assert(differs_first_at(other@, self@, j as int));
                        lemma_first_difference_decides(other@, self@, j as int);
                    }
                    return other;
                }
                idx = j;
            }
            assert(self@ =~= other@);
            self
        }
    }
}

} // verus!
