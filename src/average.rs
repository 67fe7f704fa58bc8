use crate::densmap::{
    flat_index, in_grid, index2tuple, lemma_position_round_trip, num_bins, tuple2index, Shape,
};
use vstd::prelude::*;

verus! {

/// An offset `(di, dj)` that is added to a bin position to reach a neighbour.
pub type Offset = (isize, isize);

/// Absolute value of an integer.
pub open spec fn abs(a: int) -> int {
    if a < 0 {
        -a
    } else {
        a
    }
}

/// Whether the table admits the offset `(a, b)`.
///
/// `within[i][j]` says whether the offset `(±i, ±j)` lies within the
/// averaging radius; entries missing from the table are not within it.
pub open spec fn admitted(within: Seq<Seq<bool>>, a: int, b: int) -> bool {
    &&& abs(a) < within.len()
    &&& abs(b) < within[abs(a)].len()
    &&& within[abs(a)][abs(b)]
}

/// Whether `p` comes before `q` when ordered by x first, then by y.
pub open spec fn lex_lt(p: Offset, q: Offset) -> bool {
    p.0 < q.0 || (p.0 == q.0 && p.1 < q.1)
}

/// Whether `sieve` lists exactly the offsets that the table admits, in
/// increasing order of x first and y second, each once.
pub open spec fn is_sieve_of(within: Seq<Seq<bool>>, sieve: Seq<Offset>) -> bool {
    &&& forall|a: isize, b: isize| #[trigger] sieve.contains((a, b)) <==> admitted(within, a as int, b as int)
    &&& forall|k: int, l: int| 0 <= k < l < sieve.len() ==> lex_lt(#[trigger] sieve[k], #[trigger] sieve[l])
}

/// Build the "sieve" of neighbour candidates of a bin from a table of which
/// offsets lie within the averaging radius.
///
/// The candidates are scanned with x outermost, from `-(within.len() - 1)`
/// upwards, and y from `-(within[|x|].len() - 1)` upwards, so the sieve is
/// ordered by x first and y second.
pub fn get_averaging_bin_sieve(within: &Vec<Vec<bool>>) -> (r: Vec<Offset>)
    requires
        within.len() <= isize::MAX,
        forall|i: int| 0 <= i < within.len() ==> #[trigger] within[i].len() <= isize::MAX,
    ensures
        is_sieve_of(within.deep_view(), r@),
{
    let ghost t = within.deep_view();
    let n = within.len() as isize;
    let mut bins: Vec<Offset> = Vec::new();
    let mut ix: isize = 1 - n;
    while ix < n
        invariant
            n == within.len(),
            t == within.deep_view(),
            n == 0 ==> ix == 1,
            n > 0 ==> 1 - n <= ix <= n,
            forall|i: int| 0 <= i < within.len() ==> #[trigger] within[i].len() <= isize::MAX,
            forall|a: isize, b: isize|
                #[trigger] bins@.contains((a, b)) <==> (admitted(t, a as int, b as int) && a < ix),
            forall|k: int| 0 <= k < bins.len() ==> (#[trigger] bins@[k]).0 < ix,
            forall|k: int, l: int| 0 <= k < l < bins.len() ==> lex_lt(#[trigger] bins@[k], #[trigger] bins@[l]),
        decreases n - ix,
    {
        let ax: usize = if ix < 0 { (-ix) as usize } else { ix as usize };
        let row = &within[ax];
        let m = row.len() as isize;
        let mut iy: isize = 1 - m;
        while iy < m
            invariant
                n == within.len(),
                t == within.deep_view(),
                1 - n <= ix < n,
                ax == abs(ix as int),
                *row == within[ax as int],
                m == row.len(),
                m == 0 ==> iy == 1,
                m > 0 ==> 1 - m <= iy <= m,
                forall|a: isize, b: isize|
                    #[trigger] bins@.contains((a, b)) <==> (admitted(t, a as int, b as int) && (a < ix
                        || (a == ix && b < iy))),
                forall|k: int| 0 <= k < bins.len() ==> lex_lt(#[trigger] bins@[k], (ix, iy)),
                forall|k: int, l: int| 0 <= k < l < bins.len() ==> lex_lt(#[trigger] bins@[k], #[trigger] bins@[l]),
            decreases m - iy,
        {
            let ay: usize = if iy < 0 { (-iy) as usize } else { iy as usize };
            if row[ay] {
                let ghost old_bins = bins@;
                bins.push((ix, iy));
                proof {
                    assert forall|a: isize, b: isize| #[trigger] bins@.contains((a, b)) <==> (admitted(t, a as int, b as int) && (a < ix
                        || (a == ix && b < iy + 1))) by {
                        if bins@.contains((a, b)) && (a, b) != (ix, iy) {
                            let k = choose|k: int| 0 <= k < bins.len() && bins@[k] == (a, b);
                            assert(old_bins[k] == (a, b));
                            assert(old_bins.contains((a, b)));
                        }
                        if admitted(t, a as int, b as int) && (a < ix || (a == ix && b < iy)) {
                            assert(old_bins.contains((a, b)));
                            let k = choose|k: int| 0 <= k < old_bins.len() && old_bins[k] == (a, b);
                            assert(bins@[k] == (a, b));
                        }
                        if a == ix && b == iy {
                            assert(bins@[bins.len() - 1] == (a, b));
                        }
                    }
                }
            } else {
                proof {
                    assert forall|a: isize, b: isize| #[trigger] bins@.contains((a, b)) <==> (admitted(t, a as int, b as int) && (a < ix
                        || (a == ix && b < iy + 1))) by {
                        if a == ix && b == iy {
                            assert(!admitted(t, a as int, b as int));
                        }
                    }
                }
            }
            iy += 1;
        }
        proof {
            assert forall|a: isize, b: isize| #[trigger] bins@.contains((a, b)) <==> (admitted(t, a as int, b as int) && a < ix + 1) by {
                if a == ix && admitted(t, a as int, b as int) {
                    assert(abs(b as int) < m);
                }
            }
        }
        ix += 1;
    }
    proof {
        assert forall|a: isize, b: isize| #[trigger] bins@.contains((a, b)) <==> admitted(t, a as int, b as int) by {
            if admitted(t, a as int, b as int) {
                assert(abs(a as int) < n);
            }
        }
    }
    bins
}

/// The sieve holds the zero offset exactly when the table admits it, and it
/// is symmetric: negating either component of one of its offsets gives
/// another of its offsets.
pub proof fn lemma_sieve_symmetric(within: Seq<Seq<bool>>, sieve: Seq<Offset>, a: isize, b: isize)
    requires
        within.len() <= isize::MAX,
        forall|i: int| 0 <= i < within.len() ==> #[trigger] within[i].len() <= isize::MAX,
        is_sieve_of(within, sieve),
    ensures
        sieve.contains((0isize, 0isize)) <==> (within.len() > 0 && within[0].len() > 0 && within[0][0]),
        sieve.contains((a, b)) ==> sieve.contains(((-a) as isize, b)),
        sieve.contains((a, b)) ==> sieve.contains((a, (-b) as isize)),
{
    assert(sieve.contains((0isize, 0isize)) <==> admitted(within, 0, 0));
    if sieve.contains((a, b)) {
        assert(admitted(within, a as int, b as int));
        assert(abs(((-a) as isize) as int) == abs(a as int));
        assert(abs(((-b) as isize) as int) == abs(b as int));
        assert(sieve.contains(((-a) as isize, b)) <==> admitted(within, ((-a) as isize) as int, b as int));
        assert(sieve.contains((a, (-b) as isize)) <==> admitted(within, a as int, ((-b) as isize) as int));
    }
}

/// The 1D indices of the neighbours of bin `(x, y)`: each sieve offset that
/// lands inside the grid, in sieve order.
pub open spec fn neighbours_of(x: int, y: int, shape: Shape, sieve: Seq<Offset>) -> Seq<usize>
    decreases sieve.len(),
{
    if sieve.len() == 0 {
        seq![]
    } else {
        let rest = neighbours_of(x, y, shape, sieve.drop_last());
        let (a, b) = sieve.last();
        if in_grid(x + a, y + b, shape) {
            rest.push(flat_index(x + a, y + b, shape) as usize)
        } else {
            rest
        }
    }
}

/// Get the indices of neighbouring bins to the bin with index `i`, using the
/// neighbour "sieve": the candidates that lie within the system, in order.
pub fn get_bin_neighbours(i: usize, shape: Shape, sieve: &Vec<Offset>) -> (r: Vec<usize>)
    requires
        i < num_bins(shape),
        num_bins(shape) <= isize::MAX,
    ensures
        shape[0] > 0,
        r@ == neighbours_of(i as int % shape[0] as int, i as int / shape[0] as int, shape, sieve@),
{
    let pos = index2tuple_checked(i, shape);
    let ix = pos.0 as i128;
    let iy = pos.1 as i128;
    let ghost x = i as int % shape[0] as int;
    let ghost y = i as int / shape[0] as int;
    assert(shape[0] <= isize::MAX && shape[1] <= isize::MAX) by (nonlinear_arith)
        requires
            shape[0] as int * shape[1] as int <= isize::MAX,
            shape[0] as int * shape[1] as int > 0,
            shape[0] >= 0,
            shape[1] >= 0,
    ;
    let mut out: Vec<usize> = Vec::new();
    let mut k: usize = 0;
    while k < sieve.len()
        invariant
            k <= sieve.len(),
            ix == x,
            iy == y,
            0 <= x <= isize::MAX,
            0 <= y <= isize::MAX,
            shape[0] <= isize::MAX,
            shape[1] <= isize::MAX,
            num_bins(shape) <= isize::MAX,
            out@ == neighbours_of(x, y, shape, sieve@.subrange(0, k as int)),
        decreases sieve.len() - k,
    {
        let (a, b) = sieve[k];
        let px = ix + a as i128;
        let py = iy + b as i128;
        proof {
            assert(sieve@.subrange(0, k + 1).drop_last() =~= sieve@.subrange(0, k as int));
        }
        if 0 <= px && px < shape[0] as i128 && 0 <= py && py < shape[1] as i128 {
            let j = tuple2index(px as isize, py as isize, shape);
            match j {
                Some(j) => out.push(j),
                None => {},
            }
        }
        k += 1;
    }
    assert(sieve@.subrange(0, k as int) =~= sieve@);
    out
}

/// The grid position of a valid index.
fn index2tuple_checked(i: usize, shape: Shape) -> (r: (usize, usize))
    requires
        i < num_bins(shape),
        num_bins(shape) <= isize::MAX,
    ensures
        shape[0] > 0,
        r.0 == i as int % shape[0] as int,
        r.1 == i as int / shape[0] as int,
        r.0 <= isize::MAX,
        r.1 <= isize::MAX,
{
    let ghost nx = shape[0] as int;
    assert(nx > 0 && 0 <= i as int % nx <= i && 0 <= i as int / nx <= i) by (nonlinear_arith)
        requires
            i < nx * shape[1] as int,
            nx >= 0,
            shape[1] >= 0,
    ;
    match index2tuple(i, shape) {
        Some(p) => p,
        None => (0, 0),
    }
}

/// In order and for all bins in the system, get the list of its neighbours.
pub fn get_system_bin_neighbours(sieve: &Vec<Offset>, shape: Shape) -> (r: Vec<Vec<usize>>)
    requires
        num_bins(shape) <= isize::MAX,
    ensures
        r.len() == num_bins(shape),
        forall|i: int|
            0 <= i < r.len() ==> shape[0] > 0 && #[trigger] r[i]@ == neighbours_of(
                i as int % shape[0] as int,
                i as int / shape[0] as int,
                shape,
                sieve@,
            ),
{
    let n = (shape[0] as u128 * shape[1] as u128) as usize;
    let mut all: Vec<Vec<usize>> = Vec::new();
    let mut i: usize = 0;
    while i < n
        invariant
            n == num_bins(shape),
            num_bins(shape) <= isize::MAX,
            i <= n,
            all.len() == i,
            forall|j: int|
                0 <= j < i ==> shape[0] > 0 && #[trigger] all[j]@ == neighbours_of(
                    j % shape[0] as int,
                    j / shape[0] as int,
                    shape,
                    sieve@,
                ),
        decreases n - i,
    {
        all.push(get_bin_neighbours(i, shape, sieve));
        i += 1;
    }
    all
}

/// A bin whose every sieve offset lands inside the grid has one neighbour per
/// offset: the bin at that offset, in sieve order. Averaging over such a bin
/// therefore takes in exactly as many values as the sieve has offsets.
pub proof fn lemma_interior_bin_neighbours(x: int, y: int, shape: Shape, sieve: Seq<Offset>)
    requires
        forall|k: int| 0 <= k < sieve.len() ==> in_grid(x + (#[trigger] sieve[k]).0, y + sieve[k].1, shape),
        num_bins(shape) <= usize::MAX,
    ensures
        neighbours_of(x, y, shape, sieve).len() == sieve.len(),
        forall|k: int|
            0 <= k < sieve.len() ==> #[trigger] neighbours_of(x, y, shape, sieve)[k] == flat_index(
                x + sieve[k].0,
                y + sieve[k].1,
                shape,
            ),
    decreases sieve.len(),
{
    if sieve.len() > 0 {
        let rest = sieve.drop_last();
        assert forall|k: int| 0 <= k < rest.len() implies in_grid(x + (#[trigger] rest[k]).0, y + rest[k].1, shape) by {
            assert(rest[k] == sieve[k]);
        }
        lemma_interior_bin_neighbours(x, y, shape, rest);
        let (a, b) = sieve.last();
        assert(in_grid(x + sieve[sieve.len() - 1].0, y + sieve[sieve.len() - 1].1, shape));
        lemma_position_round_trip(x + a, y + b, shape);
        assert forall|k: int| 0 <= k < sieve.len() implies #[trigger] neighbours_of(x, y, shape, sieve)[k]
            == flat_index(x + sieve[k].0, y + sieve[k].1, shape) by {
            if k < rest.len() {
                assert(rest[k] == sieve[k]);
            }
        }
    }
}

} // verus!
