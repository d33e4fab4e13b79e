//! Counter vectors, their field-wise deltas, and the usage percentage.
use vstd::prelude::*;

verus! {

/// Number of fields in one counter vector.
pub const NUM_FIELDS: usize = 10;

/// Index of the `idle` field.
pub const IDLE: usize = 3;

/// Index of the `iowait` field.
pub const IOWAIT: usize = 4;

/// Why two counter vectors could not be differenced.
#[derive(Debug, Clone, Copy, PartialEq, Eq, Structural)]
pub enum DeltaError {
    /// The two vectors have different lengths.
    ShapeMismatch,
    /// Some difference does not fit in an `i64`.
    OutOfRange,
}

pub open spec fn fits_i64(x: int) -> bool {
    i64::MIN <= x <= i64::MAX
}

/// Every field-wise difference `cur[i] - prev[i]` fits in an `i64`.
pub open spec fn delta_fits(prev: Seq<u64>, cur: Seq<u64>) -> bool {
    forall|i: int| 0 <= i < prev.len() && i < cur.len() ==> fits_i64(cur[i] - prev[i])
}

/// The signed field-wise difference `cur - prev`.
pub open spec fn delta(prev: Seq<u64>, cur: Seq<u64>) -> Seq<int> {
    Seq::new(prev.len(), |i: int| cur[i] - prev[i])
}

pub open spec fn as_ints(s: Seq<i64>) -> Seq<int> {
    s.map_values(|x: i64| x as int)
}

/// The outcome of differencing `prev` and `cur`, as `calculate_time_diff` computes it.
pub open spec fn delta_outcome(prev: Seq<u64>, cur: Seq<u64>) -> Result<Seq<int>, DeltaError> {
    if prev.len() != cur.len() {
        Err(DeltaError::ShapeMismatch)
    } else if !delta_fits(prev, cur) {
        Err(DeltaError::OutOfRange)
    } else {
        Ok(delta(prev, cur))
    }
}

/// Field-wise `current[i] - previous[i]`, signed; negative where a counter went back.
pub fn calculate_time_diff(prev: &[u64], current: &[u64]) -> (r: Result<Vec<i64>, DeltaError>)
    ensures
        match r {
            Ok(d) => delta_outcome(prev@, current@) == Ok::<Seq<int>, DeltaError>(as_ints(d@)),
            Err(e) => delta_outcome(prev@, current@) == Err::<Seq<int>, DeltaError>(e),
        },
        r matches Ok(d) ==> d@.len() == prev@.len() && forall|i: int|
            0 <= i < d@.len() ==> #[trigger] d@[i] == current@[i] - prev@[i],
{
    if prev.len() != current.len() {
        return Err(DeltaError::ShapeMismatch);
    }
    let mut d: Vec<i64> = Vec::new();
    let mut i: usize = 0;
    while i < prev.len()
        invariant
            prev@.len() == current@.len(),
            i <= prev@.len(),
            d@.len() == i,
            forall|j: int| 0 <= j < i ==> d@[j] == current@[j] - prev@[j],
            forall|j: int| 0 <= j < i ==> fits_i64(current@[j] - prev@[j]),
        decreases prev@.len() - i,
    {
        let x: i128 = current[i] as i128 - prev[i] as i128;
        if x < i64::MIN as i128 || x > i64::MAX as i128 {
            assert(!delta_fits(prev@, current@));
            return Err(DeltaError::OutOfRange);
        }
        d.push(x as i64);
        i = i + 1;
    }
    assert(delta_fits(prev@, current@));
    assert(as_ints(d@) =~= delta(prev@, current@));
    Ok(d)
}

/// Sum of all fields.
pub open spec fn sum(s: Seq<i64>) -> int
    decreases s.len(),
{
    if s.len() == 0 {
        0
    } else {
        sum(s.drop_last()) + s.last()
    }
}

pub open spec fn abs(x: int) -> int {
    if x < 0 {
        -x
    } else {
        x
    }
}

/// `a / b` rounded to the nearest integer, halves away from zero.
pub open spec fn round_div(a: int, b: int) -> int
    recommends
        b != 0,
{
    let q = (2 * abs(a) + abs(b)) / (2 * abs(b));
    if (a < 0) != (b < 0) {
        -q
    } else {
        q
    }
}

/// Usage in hundredths of a percent: `(1 - (idle + iowait) / total) * 100`,
/// rounded to two decimals. No value when the total time is zero.
pub open spec fn usage_hundredths(d: Seq<i64>) -> Option<int> {
    let total = sum(d);
    let idle = d[IDLE as int] + d[IOWAIT as int];
    if total == 0 {
        None
    } else {
        Some(round_div(10000 * (total - idle), total))
    }
}

/// Usage percentage of one delta vector, in hundredths of a percent
/// (`6000` is 60.00%). `None` when all ten fields sum to zero.
pub fn usage_percent(d: &[i64]) -> (r: Option<i128>)
    requires
        d@.len() == NUM_FIELDS,
    ensures
        match r {
            Some(p) => usage_hundredths(d@) == Some(p as int),
            None => usage_hundredths(d@) is None,
        },
{
    let mut total: i128 = 0;
    let mut i: usize = 0;
    while i < d.len()
        invariant
            i <= d@.len() == NUM_FIELDS,
            total == sum(d@.take(i as int)),
            -(i as int) * 0x8000_0000_0000_0000 <= total <= (i as int) * 0x8000_0000_0000_0000,
        decreases d@.len() - i,
    {
        assert(d@.take(i as int + 1).drop_last() =~= d@.take(i as int));
        total = total + d[i] as i128;
        i = i + 1;
    }
    assert(d@.take(i as int) =~= d@);
    if total == 0 {
        return None;
    }
    let idle: i128 = d[IDLE] as i128 + d[IOWAIT] as i128;
    let a: i128 = 10000 * (total - idle);
    let abs_a: u128 = if a < 0 { (-a) as u128 } else { a as u128 };
    let abs_b: u128 = if total < 0 { (-total) as u128 } else { total as u128 };
    let q: u128 = (2 * abs_a + abs_b) / (2 * abs_b);
    assert(q <= 2 * abs_a + abs_b) by (nonlinear_arith)
        requires q == (2 * abs_a + abs_b) / (2 * abs_b), abs_b > 0;
    if (a < 0) != (total < 0) {
        Some(-(q as i128))
    } else {
        Some(q as i128)
    }
}

} // verus!
