//! Picking the smaller of two values, and the smallest value of a slice.
use vstd::prelude::*;

verus! {

/// A type whose values can report the smaller of two, without copying either.
pub trait Minimum {
    /// The quantity by which values of the type are ordered.
    spec fn rank(&self) -> int;

    /// Returns one of `self` and `other` whose rank is at most that of both.
    fn min<'a>(&'a self, other: &'a Self) -> (r: &'a Self)
        ensures
            r == self || r == other,
            r.rank() <= self.rank(),
            r.rank() <= other.rank(),
    ;
}

/// Returns a reference to an element of least rank, or `None` for an empty slice.
pub fn vec_min<T: Minimum>(v: &[T]) -> (r: Option<&T>)
    ensures
        r is None <==> v@.len() == 0,
        r matches Some(m) ==> exists|k: int| 0 <= k < v@.len() && *m == v@[k],
        r matches Some(m) ==> forall|j: int| 0 <= j < v@.len() ==> m.rank() <= v@[j].rank(),
        v@.len() == 1 ==> (r matches Some(m) && *m == v@[0]),
{
    let mut min: Option<&T> = None;
    let mut i: usize = 0;
    while i < v.len()
        invariant
            i <= v@.len(),
            min is None <==> i == 0,
            min matches Some(m) ==> exists|k: int| 0 <= k < i && *m == v@[k],
            min matches Some(m) ==> forall|j: int| 0 <= j < i ==> m.rank() <= v@[j].rank(),
            i >= 1 ==> (min matches Some(m) && (i == 1 ==> *m == v@[0])),
        decreases v@.len() - i,
    {
        let e = &v[i];
        min = Some(
            match min {
                Some(n) => n.min(e),
                None => e,
            },
        );
        i = i + 1;
    }
    min
}

} // verus!
