use vstd::prelude::*;
use vstd::relations::{sorted_by, total_ordering};
use vstd::seq_lib::lemma_sorted_unique;

verus! {

broadcast use vstd::seq_lib::group_to_multiset_ensures;

/// Why percentile values could not be computed.
#[derive(Debug, PartialEq, Eq, Structural)]
pub enum PercentileError {
    /// There are no values to take a percentile of.
    Empty,
    /// The lower percentile lies outside `[0, 100]`.
    LowerOutOfRange,
    /// The upper percentile lies outside `[0, 100]`.
    UpperOutOfRange,
}

/// The ordering of order keys.
pub open spec fn key_leq() -> spec_fn(u64, u64) -> bool {
    |x: u64, y: u64| x <= y
}

/// The values in increasing order.
pub open spec fn sorted_keys(values: Seq<u64>) -> Seq<u64> {
    values.sort_by(key_leq())
}

/// Position of the `p`-th percentile among `n` sorted values: `p * n / 100`
/// rounded half up, and the last position where that lies past the end.
pub open spec fn percentile_index(p: int, n: int) -> int {
    let k = (p * n + 50) / 100;
    if k < n {
        k
    } else {
        n - 1
    }
}

proof fn lemma_key_leq_total()
    ensures
        total_ordering(key_leq()),
{
}

/// A copy of the values in increasing order.
fn sorted_copy(values: &Vec<u64>) -> (r: Vec<u64>)
    ensures
        r@ == sorted_keys(values@),
        r.len() == values.len(),
{
    let mut out: Vec<u64> = Vec::new();
    let mut i: usize = 0;
    while i < values.len()
        invariant
            i <= values.len(),
            out.len() == i,
            sorted_by(out@, key_leq()),
            out@.to_multiset() == values@.subrange(0, i as int).to_multiset(),
        decreases values.len() - i,
    {
        let v = values[i];
        let mut pos: usize = 0;
        while pos < out.len() && out[pos] <= v
            invariant
                pos <= out.len(),
                forall|j: int| 0 <= j < pos ==> #[trigger] out[j] <= v,
            decreases out.len() - pos,
        {
            pos += 1;
        }
        let ghost before = out@;
        proof {
            assert forall|j: int| pos <= j < before.len() implies v < #[trigger] before[j] by {
                assert(key_leq()(before[pos as int], before[j]));
            }
        }
        out.insert(pos, v);
        proof {
            assert(values@.subrange(0, i + 1) =~= values@.subrange(0, i as int).push(v));
            assert forall|a: int, b: int| 0 <= a < b < out@.len() implies #[trigger] key_leq()(
                out@[a],
                out@[b],
            ) by {
                if b < pos {
                    assert(key_leq()(before[a], before[b]));
                } else if b == pos {
                } else if a < pos {
                    assert(before[a] <= v);
                } else if a == pos {
                    assert(v < before[b - 1]);
                } else {
                    assert(key_leq()(before[a - 1], before[b - 1]));
                }
            }
        }
        i += 1;
    }
    proof {
        assert(values@.subrange(0, i as int) =~= values@);
        lemma_key_leq_total();
        values@.lemma_sort_by_ensures(key_leq());
        lemma_sorted_unique(out@, sorted_keys(values@), key_leq());
    }
    out
}

/// The values at the `lower`-th and the `upper`-th percentile, in whole
/// percent, of the values ordered by their keys: the value at position
/// `round(p * n / 100)` of the sorted values (the last one where that lies
/// past the end).
///
/// Fails on an empty input, then on a lower and then on an upper percentile
/// outside `[0, 100]`.
pub fn get_percentile_values(values: &Vec<u64>, lower: i64, upper: i64) -> (r: Result<
    (u64, u64),
    PercentileError,
>)
    ensures
        values.len() == 0 ==> r == Err::<(u64, u64), PercentileError>(PercentileError::Empty),
        values.len() > 0 && !(0 <= lower <= 100) ==> r == Err::<(u64, u64), PercentileError>(
            PercentileError::LowerOutOfRange,
        ),
        values.len() > 0 && 0 <= lower <= 100 && !(0 <= upper <= 100) ==> r == Err::<
            (u64, u64),
            PercentileError,
        >(PercentileError::UpperOutOfRange),
        values.len() > 0 && 0 <= lower <= 100 && 0 <= upper <= 100 ==> r == Ok::<
            (u64, u64),
            PercentileError,
        >(
            (
                sorted_keys(values@)[percentile_index(lower as int, values.len() as int)],
                sorted_keys(values@)[percentile_index(upper as int, values.len() as int)],
            ),
        ),
{
    if values.len() == 0 {
        return Err(PercentileError::Empty);
    }
    if lower < 0 || lower > 100 {
        return Err(PercentileError::LowerOutOfRange);
    }
    if upper < 0 || upper > 100 {
        return Err(PercentileError::UpperOutOfRange);
    }
    let sorted = sorted_copy(values);
    let n = values.len();
    let ilower = percentile_position(lower as usize, n);
    let iupper = percentile_position(upper as usize, n);
    Ok((sorted[ilower], sorted[iupper]))
}

/// Position of the `p`-th percentile among `n` sorted values.
fn percentile_position(p: usize, n: usize) -> (r: usize)
    requires
        p <= 100,
        n > 0,
    ensures
        r == percentile_index(p as int, n as int),
        r < n,
{
    assert(p as int * n as int <= 100 * usize::MAX) by (nonlinear_arith)
        requires
            p <= 100,
            n <= usize::MAX,
    ;
    let k = (p as u128 * n as u128 + 50) / 100;
    if k < n as u128 {
        k as usize
    } else {
        n - 1
    }
}

/// Index of the outermost bin whose value reaches `threshold`, found by
/// scanning from the last bin inward; `None` when no bin reaches it.
///
/// Scanning inward keeps fluctuations near the center from crossing the
/// threshold early.
pub fn last_bin_at_or_above(values: &Vec<u64>, threshold: u64) -> (r: Option<usize>)
    ensures
        r matches Some(i) ==> i < values.len() && values[i as int] >= threshold && forall|j: int|
            i < j < values.len() ==> values[j] < threshold,
        r is None ==> forall|j: int| 0 <= j < values.len() ==> values[j] < threshold,
{
    let mut i: usize = values.len();
    while i > 0
        invariant
            i <= values.len(),
            forall|j: int| i <= j < values.len() ==> values[j] < threshold,
        decreases i,
    {
        if values[i - 1] >= threshold {
            return Some(i - 1);
        }
        i -= 1;
    }
    None
}

} // verus!
