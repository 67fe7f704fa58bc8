use vstd::prelude::*;

verus! {

/// Where a target x lies among the sorted x values of a curve.
#[derive(Clone, Copy, Debug, PartialEq, Eq, Structural)]
pub enum Location {
    /// The target equals the x value at this index.
    At(usize),
    /// The target lies strictly between, or beyond, the x values at these two
    /// consecutive indices: the pair to interpolate or extrapolate from.
    Between(usize, usize),
    /// The target matches no x value and the curve has fewer than two points.
    TooFewPoints,
}

/// Whether the keys are in non-decreasing order.
pub open spec fn is_sorted(xs: Seq<u64>) -> bool {
    forall|i: int, j: int| 0 <= i < j < xs.len() ==> xs[i] <= xs[j]
}

/// Find where the target `x` lies among the sorted keys `xs`, by binary
/// search: the first index holding `x`, or else the pair of neighbouring
/// points around it, the first two when `x` lies before all of them and the
/// last two when it lies after all of them.
pub fn find_interpolation_points(xs: &Vec<u64>, x: u64) -> (r: Location)
    requires
        is_sorted(xs@),
    ensures
        xs@.contains(x) <==> r is At,
        r is TooFewPoints <==> !xs@.contains(x) && xs.len() < 2,
        r matches Location::At(i) ==> i < xs.len() && xs[i as int] == x && forall|j: int|
            0 <= j < i ==> xs[j] != x,
        r matches Location::Between(i0, i1) ==> {
            &&& i1 == i0 + 1
            &&& i1 < xs.len()
            &&& {
                ||| i0 == 0 && x < xs[0]
                ||| i1 == xs.len() - 1 && xs[i1 as int] < x
                ||| xs[i0 as int] < x < xs[i1 as int]
            }
        },
{
    let n = xs.len();
    let mut lo: usize = 0;
    let mut hi: usize = n;
    while lo < hi
        invariant
            n == xs.len(),
            is_sorted(xs@),
            lo <= hi <= n,
            forall|j: int| 0 <= j < lo ==> xs[j] < x,
            forall|j: int| hi <= j < n ==> xs[j] >= x,
        decreases hi - lo,
    {
        let mid = lo + (hi - lo) / 2;
        if xs[mid] < x {
            lo = mid + 1;
        } else {
            hi = mid;
        }
    }
    if lo < n && xs[lo] == x {
        return Location::At(lo);
    }
    proof {
        assert forall|j: int| 0 <= j < n implies xs[j] != x by {
            if j > lo {
                assert(xs[lo as int] <= xs[j]);
            }
        }
    }
    if n < 2 {
        Location::TooFewPoints
    } else if lo == 0 {
        Location::Between(0, 1)
    } else if lo == n {
        Location::Between(n - 2, n - 1)
    } else {
        Location::Between(lo - 1, lo)
    }
}

} // verus!
