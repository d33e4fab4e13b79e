//! Field-wise differences over the latest intervals of a history window,
//! summed and averaged.
use vstd::prelude::*;
use crate::counters::{as_ints, calculate_time_diff, delta_fits, DeltaError};
use crate::window::{append_all, lemma_window_fifo, HistoryWindow, Snapshot, SnapshotView};

verus! {

/// Why no differences could be computed.
#[derive(Debug, Clone, Copy, PartialEq, Eq, Structural)]
pub enum AggregateError {
    /// The window holds no interval to difference.
    NotEnoughData,
    /// Two snapshots in the intervals used differ in shape.
    ShapeMismatch,
    /// Some interval's difference does not fit in an `i64`.
    OutOfRange,
}

/// The aggregate and per-core differences, summed over `pairs` intervals and,
/// in averaging mode, divided by `pairs`.
pub struct Differences {
    pub cpu: Vec<i64>,
    pub cores: Vec<Vec<i64>>,
    pub pairs: usize,
    pub averaged: bool,
}

/// The aggregate vector (`None`) or the vector of core `c` (`Some(c)`).
pub open spec fn pick(s: SnapshotView, sel: Option<int>) -> Seq<u64> {
    match sel {
        Some(c) => s.cores[c],
        None => s.cpu,
    }
}

pub open spec fn column(snaps: Seq<SnapshotView>, sel: Option<int>) -> Seq<Seq<u64>> {
    Seq::new(snaps.len(), |j: int| pick(snaps[j], sel))
}

/// Sum over the intervals `(v[j], v[j + 1])`, `lo <= j < hi`, of the deltas of field `i`.
pub open spec fn pair_sum(v: Seq<Seq<u64>>, lo: int, hi: int, i: int) -> int
    decreases hi - lo,
{
    if hi <= lo {
        0
    } else {
        pair_sum(v, lo, hi - 1, i) + (v[hi][i] - v[hi - 1][i])
    }
}

/// Division truncating toward zero.
pub open spec fn trunc_div(a: int, k: int) -> int {
    if a >= 0 {
        a / k
    } else {
        -((-a) / k)
    }
}

/// Field-wise sum of the deltas of the intervals in `lo..hi`, divided by `k`.
pub open spec fn averaged(v: Seq<Seq<u64>>, lo: int, hi: int, k: int) -> Seq<int> {
    Seq::new(v[hi].len(), |i: int| trunc_div(pair_sum(v, lo, hi, i), k))
}

/// Number of intervals that the differences are taken over: the latest one in
/// instantaneous mode, the latest `min(times, len - 1)` in averaging mode.
pub open spec fn pairs_used(len: int, averaging: bool, times: int) -> int {
    if len < 2 {
        0
    } else if !averaging {
        1
    } else if times < len - 1 {
        times
    } else {
        len - 1
    }
}

/// Snapshots `lo..=hi` have the shape of snapshot `hi`.
pub open spec fn shapes_agree(snaps: Seq<SnapshotView>, lo: int, hi: int) -> bool {
    forall|j: int|
        #![trigger snaps[j]]
        lo <= j <= hi ==> {
            &&& snaps[j].cpu.len() == snaps[hi].cpu.len()
            &&& snaps[j].cores.len() == snaps[hi].cores.len()
            &&& forall|c: int|
                0 <= c < snaps[hi].cores.len() ==> #[trigger] snaps[j].cores[c].len()
                    == snaps[hi].cores[c].len()
        }
}

/// Every interval in `lo..hi` has deltas that fit in an `i64`.
pub open spec fn deltas_fit(snaps: Seq<SnapshotView>, lo: int, hi: int) -> bool {
    forall|j: int, sel: Option<int>|
        lo <= j < hi && (sel matches Some(c) ==> 0 <= c < snaps[hi].cores.len())
            ==> delta_fits(#[trigger] pick(snaps[j], sel), pick(snaps[j + 1], sel))
}

fn pick_exec(s: &Snapshot, sel: Option<usize>) -> (r: &Vec<u64>)
    requires
        sel matches Some(c) ==> c < s.cores@.len(),
    ensures
        r@ == pick(s@, match sel { Some(c) => Some(c as int), None => None }),
{
    match sel {
        Some(c) => &s.cores[c],
        None => &s.cpu,
    }
}

pub open spec fn sel_int(sel: Option<usize>) -> Option<int> {
    match sel {
        Some(c) => Some(c as int),
        None => None,
    }
}

proof fn lemma_trunc_div_fits(a: int, k: int)
    requires
        k >= 1,
        -k * 0x8000_0000_0000_0000 <= a <= k * 0x7fff_ffff_ffff_ffff,
    ensures
        i64::MIN <= trunc_div(a, k) <= i64::MAX,
{
    if a >= 0 {
        assert(a / k <= 0x7fff_ffff_ffff_ffff) by (nonlinear_arith)
            requires
                k >= 1,
                0 <= a <= k * 0x7fff_ffff_ffff_ffff,
        ;
        assert(a / k >= 0) by (nonlinear_arith)
            requires
                k >= 1,
                0 <= a,
        ;
    } else {
        assert((-a) / k <= 0x8000_0000_0000_0000) by (nonlinear_arith)
            requires
                k >= 1,
                0 <= -a <= k * 0x8000_0000_0000_0000,
        ;
        assert((-a) / k >= 0) by (nonlinear_arith)
            requires
                k >= 1,
                0 <= -a,
        ;
    }
}

/// Sums the deltas of one column over the intervals `lo..hi` and divides by `k`.
fn average_column(w: &HistoryWindow, sel: Option<usize>, lo: usize, hi: usize, k: usize) -> (r:
    Option<Vec<i64>>)
    requires
        lo < hi < w.view().len(),
        k == hi - lo,
        shapes_agree(w.view(), lo as int, hi as int),
        sel matches Some(c) ==> c < w.view()[hi as int].cores.len(),
    ensures
        match r {
            Some(a) => as_ints(a@) == averaged(column(w.view(), sel_int(sel)), lo as int, hi as int, k as int)
                && (forall|j: int| lo <= j < hi ==> delta_fits(#[trigger] pick(w.view()[j], sel_int(sel)), pick(w.view()[j + 1], sel_int(sel)))),
            None => exists|j: int| lo <= j < hi && !delta_fits(#[trigger] pick(w.view()[j], sel_int(sel)), pick(w.view()[j + 1], sel_int(sel))),
        },
{
    let ghost snaps = w.view();
    let ghost v = column(snaps, sel_int(sel));
    let ghost s = sel_int(sel);
    let n = pick_exec(w.get(hi), sel).len();
    let mut acc: Vec<i128> = Vec::new();
    while acc.len() < n
        invariant
            acc@.len() <= n,
            forall|i: int| 0 <= i < acc@.len() ==> acc@[i] == 0,
        decreases n - acc@.len(),
    {
        acc.push(0);
    }
    let mut j: usize = lo;
    while j < hi
        invariant
            lo <= j <= hi,
            snaps == w.view(),
            v == column(snaps, s),
            s == sel_int(sel),
            lo < hi < snaps.len(),
            shapes_agree(snaps, lo as int, hi as int),
            sel matches Some(c) ==> c < snaps[hi as int].cores.len(),
            n == v[hi as int].len(),
            acc@.len() == n,
            forall|i: int|
                0 <= i < n ==> #[trigger] acc@[i] == pair_sum(v, lo as int, j as int, i),
            forall|i: int|
                0 <= i < n ==> -(j - lo) * 0x8000_0000_0000_0000 <= #[trigger] acc@[i] <= (j - lo)
                    * 0x7fff_ffff_ffff_ffff,
            forall|jj: int| lo <= jj < j ==> delta_fits(#[trigger] pick(snaps[jj], s), pick(snaps[jj + 1], s)),
        decreases hi - j,
    {
        let prev = pick_exec(w.get(j), sel);
        let cur = pick_exec(w.get(j + 1), sel);
        let d = match calculate_time_diff(prev.as_slice(), cur.as_slice()) {
            Ok(d) => d,
            Err(_) => {
                return None;
            },
        };
        assert(as_ints(d@).len() == n);
        let mut i: usize = 0;
        while i < n
            invariant
                0 <= i <= n,
                lo <= j < hi,
                acc@.len() == n,
                d@.len() == n,
                j + 1 < v.len(),
                as_ints(d@) == crate::counters::delta(prev@, cur@),
                prev@ == v[j as int],
                cur@ == v[j as int + 1],
                prev@.len() == n,
                forall|ii: int| 0 <= ii < n ==> crate::counters::fits_i64(#[trigger] cur@[ii] - prev@[ii]),
                forall|ii: int|
                    0 <= ii < i ==> #[trigger] acc@[ii] == pair_sum(v, lo as int, j + 1, ii),
                forall|ii: int|
                    i <= ii < n ==> #[trigger] acc@[ii] == pair_sum(v, lo as int, j as int, ii),
                forall|ii: int|
                    0 <= ii < i ==> -(j + 1 - lo) * 0x8000_0000_0000_0000 <= #[trigger] acc@[ii] <= (j + 1 - lo)
                        * 0x7fff_ffff_ffff_ffff,
                forall|ii: int|
                    i <= ii < n ==> -(j - lo) * 0x8000_0000_0000_0000 <= #[trigger] acc@[ii] <= (j - lo)
                        * 0x7fff_ffff_ffff_ffff,
            decreases n - i,
        {
            assert(as_ints(d@)[i as int] == d@[i as int] as int);
            let x = acc[i] + d[i] as i128;
            acc.set(i, x);
            i = i + 1;
        }
        proof {
            assert(crate::counters::delta_fits(prev@, cur@));
        }
        j = j + 1;
    }
    let mut out: Vec<i64> = Vec::new();
    let mut i: usize = 0;
    while i < n
        invariant
            0 <= i <= n,
            acc@.len() == n,
            k == hi - lo,
            k >= 1,
            out@.len() == i,
            forall|ii: int| 0 <= ii < n ==> #[trigger] acc@[ii] == pair_sum(v, lo as int, hi as int, ii),
            forall|ii: int|
                0 <= ii < n ==> -(k as int) * 0x8000_0000_0000_0000 <= #[trigger] acc@[ii] <= (k as int)
                    * 0x7fff_ffff_ffff_ffff,
            forall|ii: int| 0 <= ii < i ==> #[trigger] out@[ii] == trunc_div(acc@[ii] as int, k as int),
        decreases n - i,
    {
        let a = acc[i];
        proof {
            lemma_trunc_div_fits(a as int, k as int);
        }
        let q: i128 = if a >= 0 {
            a / (k as i128)
        } else {
            -((-a) / (k as i128))
        };
        out.push(q as i64);
        i = i + 1;
    }
    assert(as_ints(out@) =~= averaged(v, lo as int, hi as int, k as int));
    Some(out)
}

/// Whether snapshots `lo..=hi` all have the shape of snapshot `hi`.
fn check_shapes(w: &HistoryWindow, lo: usize, hi: usize) -> (r: bool)
    requires
        lo <= hi < w.view().len(),
    ensures
        r == shapes_agree(w.view(), lo as int, hi as int),
{
    let ghost snaps = w.view();
    let _total = w.len();
    let last = w.get(hi);
    let mut j: usize = lo;
    while j <= hi
        invariant
            lo <= j <= hi + 1,
            hi < snaps.len() == _total,
            snaps == w.view(),
            last@ == snaps[hi as int],
            forall|jj: int|
                #![trigger snaps[jj]]
                lo <= jj < j ==> {
                    &&& snaps[jj].cpu.len() == snaps[hi as int].cpu.len()
                    &&& snaps[jj].cores.len() == snaps[hi as int].cores.len()
                    &&& forall|c: int|
                        0 <= c < snaps[hi as int].cores.len() ==> #[trigger] snaps[jj].cores[c].len()
                            == snaps[hi as int].cores[c].len()
                },
        decreases hi + 1 - j,
    {
        let s = w.get(j);
        if s.cpu.len() != last.cpu.len() || s.cores.len() != last.cores.len() {
            assert(!shapes_agree(snaps, lo as int, hi as int)) by {
                assert(snaps[j as int] == s@);
            }
            return false;
        }
        let mut c: usize = 0;
        while c < last.cores.len()
            invariant
                c <= last.cores@.len() == s.cores@.len(),
                lo <= j <= hi < snaps.len(),
                snaps == w.view(),
                s@ == snaps[j as int],
                last@ == snaps[hi as int],
                forall|cc: int| 0 <= cc < c ==> #[trigger] snaps[j as int].cores[cc].len() == snaps[hi as int].cores[cc].len(),
            decreases last.cores@.len() - c,
        {
            if s.cores[c].len() != last.cores[c].len() {
                assert(!shapes_agree(snaps, lo as int, hi as int)) by {
                    assert(snaps[j as int].cores[c as int].len() != snaps[hi as int].cores[c as int].len());
                }
                return false;
            }
            c = c + 1;
        }
        j = j + 1;
    }
    true
}

/// The spec-level outcome of [`compute_differences`] on a window's snapshots.
pub open spec fn differences_outcome(snaps: Seq<SnapshotView>, averaging: bool, times: int) -> Result<(Seq<int>, Seq<Seq<int>>), AggregateError> {
    let k = pairs_used(snaps.len() as int, averaging, times);
    let hi = snaps.len() - 1;
    let lo = hi - k;
    if k < 1 {
        Err(AggregateError::NotEnoughData)
    } else if !shapes_agree(snaps, lo, hi) {
        Err(AggregateError::ShapeMismatch)
    } else if !deltas_fit(snaps, lo, hi) {
        Err(AggregateError::OutOfRange)
    } else {
        Ok((
            averaged(column(snaps, None), lo, hi, k),
            Seq::new(snaps[hi].cores.len(), |c: int| averaged(column(snaps, Some(c)), lo, hi, k)),
        ))
    }
}

impl HistoryWindow {
    /// Differences over the latest intervals of the window: the latest one in
    /// instantaneous mode; in averaging mode the latest `min(times, len - 1)`,
    /// summed field by field and divided by their number, truncating.
    pub fn compute_differences(&self) -> (r: Result<Differences, AggregateError>)
        requires
            self.wf(),
        ensures
            match r {
                Ok(d) => {
                    &&& differences_outcome(self.view(), self.is_averaging(), self.times() as int)
                        == Ok::<(Seq<int>, Seq<Seq<int>>), AggregateError>((
                        as_ints(d.cpu@),
                        Seq::new(d.cores@.len() as nat, |c: int| as_ints(d.cores@[c]@)),
                    ))
                    &&& d.pairs == pairs_used(self.view().len() as int, self.is_averaging(), self.times() as int)
                    &&& d.averaged == self.is_averaging()
                },
                Err(e) => differences_outcome(self.view(), self.is_averaging(), self.times() as int)
                    == Err::<(Seq<int>, Seq<Seq<int>>), AggregateError>(e),
            },
    {
        let ghost snaps = self.view();
        let n = self.len();
        if n < 2 {
            return Err(AggregateError::NotEnoughData);
        }
        let averaging = self.averaging();
        let times = self.requested_times();
        let k: usize = if !averaging {
            1
        } else if times < n - 1 {
            times
        } else {
            n - 1
        };
        if k < 1 {
            return Err(AggregateError::NotEnoughData);
        }
        let hi = n - 1;
        let lo = hi - k;
        if !check_shapes(self, lo, hi) {
            return Err(AggregateError::ShapeMismatch);
        }
        let cpu = match average_column(self, None, lo, hi, k) {
            Some(a) => a,
            None => {
                proof {
                    let j = choose|j: int| lo <= j < hi && !delta_fits(#[trigger] pick(snaps[j], None), pick(snaps[j + 1], None));
                    assert(!deltas_fit(snaps, lo as int, hi as int)) by {
                        assert(!delta_fits(pick(snaps[j], None), pick(snaps[j + 1], None)));
                    }
                }
                return Err(AggregateError::OutOfRange);
            },
        };
        let ncores = self.get(hi).cores.len();
        let mut cores: Vec<Vec<i64>> = Vec::new();
        let mut c: usize = 0;
        while c < ncores
            invariant
                c <= ncores == snaps[hi as int].cores.len(),
                snaps == self.view(),
                lo < hi < snaps.len(),
                k == hi - lo,
                hi == snaps.len() - 1,
                self.wf(),
                k == pairs_used(snaps.len() as int, self.is_averaging(), self.times() as int),
                averaging == self.is_averaging(),
                shapes_agree(snaps, lo as int, hi as int),
                as_ints(cpu@) == averaged(column(snaps, None), lo as int, hi as int, k as int),
                forall|j: int| lo <= j < hi ==> delta_fits(#[trigger] pick(snaps[j], None), pick(snaps[j + 1], None)),
                cores@.len() == c,
                forall|cc: int| 0 <= cc < c ==> as_ints(#[trigger] cores@[cc]@) == averaged(column(snaps, Some(cc)), lo as int, hi as int, k as int),
                forall|cc: int, j: int| 0 <= cc < c && lo <= j < hi ==> delta_fits(#[trigger] pick(snaps[j], Some(cc)), pick(snaps[j + 1], Some(cc))),
            decreases ncores - c,
        {
            match average_column(self, Some(c), lo, hi, k) {
                Some(a) => {
                    cores.push(a);
                },
                None => {
                    proof {
                        let j = choose|j: int| lo <= j < hi && !delta_fits(#[trigger] pick(snaps[j], Some(c as int)), pick(snaps[j + 1], Some(c as int)));
                        assert(!deltas_fit(snaps, lo as int, hi as int)) by {
                            assert(!delta_fits(pick(snaps[j], Some(c as int)), pick(snaps[j + 1], Some(c as int))));
                        }
                    }
                    return Err(AggregateError::OutOfRange);
                },
            }
            c = c + 1;
        }
        proof {
            assert forall|j: int, sel: Option<int>|
                lo <= j < hi && (sel matches Some(cc) ==> 0 <= cc < snaps[hi as int].cores.len())
                implies delta_fits(#[trigger] pick(snaps[j], sel), pick(snaps[j + 1], sel)) by {
                match sel {
                    Some(cc) => {
                        assert(delta_fits(pick(snaps[j], Some(cc)), pick(snaps[j + 1], Some(cc))));
                    },
                    None => {},
                }
            }
            assert(Seq::new(cores@.len() as nat, |cc: int| as_ints(cores@[cc]@)) =~= Seq::new(
                snaps[hi as int].cores.len(),
                |cc: int| averaged(column(snaps, Some(cc)), lo as int, hi as int, k as int),
            ));
        }
        Ok(Differences { cpu, cores, pairs: k, averaged: averaging })
    }
}

/// Summed interval deltas telescope: over the intervals `lo..hi` they equal the
/// difference between the counters at `hi` and at `lo`.
pub proof fn lemma_pair_sum_telescopes(v: Seq<Seq<u64>>, lo: int, hi: int, i: int)
    requires
        lo <= hi,
    ensures
        pair_sum(v, lo, hi, i) == v[hi][i] - v[lo][i],
    decreases hi - lo,
{
    if hi > lo {
        lemma_pair_sum_telescopes(v, lo, hi - 1, i);
    }
}

/// In averaging mode over `n` intervals, a full window of `n + 1` snapshots
/// yields, for every field, the sum of the `n` consecutive interval deltas
/// divided by `n` (truncating), which is the difference between the newest
/// and the oldest snapshot divided by `n`.
pub proof fn lemma_average_of_full_window(snaps: Seq<SnapshotView>, n: int, i: int)
    requires
        n >= 1,
        snaps.len() == n + 1,
        shapes_agree(snaps, 0, n),
        deltas_fit(snaps, 0, n),
        0 <= i < snaps[n].cpu.len(),
    ensures
        differences_outcome(snaps, true, n) matches Ok((cpu, _)) && cpu[i] == trunc_div(
            pair_sum(column(snaps, None), 0, n, i),
            n,
        ) && cpu[i] == trunc_div(snaps[n].cpu[i] - snaps[0].cpu[i], n),
{
    lemma_pair_sum_telescopes(column(snaps, None), 0, n, i);
}

/// Snapshots that were evicted do not matter: whatever came before, once at
/// least `cap` further snapshots have been appended, the window is the same.
pub proof fn lemma_evicted_do_not_matter<T>(p: Seq<T>, q: Seq<T>, s: Seq<T>, cap: int)
    requires
        cap >= 1,
        s.len() >= cap,
    ensures
        append_all(Seq::<T>::empty(), p + s, cap) == append_all(Seq::<T>::empty(), q + s, cap),
        append_all(Seq::<T>::empty(), p + s, cap) == s.subrange(s.len() - cap, s.len() as int),
{
    lemma_window_fifo(Seq::<T>::empty(), p + s, cap);
    lemma_window_fifo(Seq::<T>::empty(), q + s, cap);
    assert(Seq::<T>::empty() + (p + s) =~= p + s);
    assert(Seq::<T>::empty() + (q + s) =~= q + s);
    assert((p + s).subrange((p + s).len() - cap, (p + s).len() as int) =~= s.subrange(s.len() - cap, s.len() as int));
    assert((q + s).subrange((q + s).len() - cap, (q + s).len() as int) =~= s.subrange(s.len() - cap, s.len() as int));
}

} // verus!
