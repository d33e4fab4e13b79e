//! Timestamped snapshots and the bounded window that holds the latest of them.
use vstd::prelude::*;

verus! {

/// One reading of the counter source: the aggregate vector and one vector per core.
pub struct Snapshot {
    /// Seconds since the epoch at which the reading was taken.
    pub timestamp: u64,
    pub cpu: Vec<u64>,
    pub cores: Vec<Vec<u64>>,
}

/// The mathematical value of a [`Snapshot`].
pub ghost struct SnapshotView {
    pub timestamp: u64,
    pub cpu: Seq<u64>,
    pub cores: Seq<Seq<u64>>,
}

impl View for Snapshot {
    type V = SnapshotView;

    open spec fn view(&self) -> SnapshotView {
        SnapshotView { timestamp: self.timestamp, cpu: self.cpu@, cores: self.cores.deep_view() }
    }
}

impl Snapshot {
    pub fn new(timestamp: u64, cpu: Vec<u64>, cores: Vec<Vec<u64>>) -> (r: Snapshot)
        ensures
            r.timestamp == timestamp,
            r.cpu@ == cpu@,
            r.cores@ == cores@,
    {
        Snapshot { timestamp, cpu, cores }
    }
}

/// `s` with its oldest entries dropped until at most `cap` remain.
pub open spec fn keep_latest<T>(s: Seq<T>, cap: int) -> Seq<T> {
    if s.len() <= cap {
        s
    } else {
        s.subrange(s.len() - cap, s.len() as int)
    }
}

/// The window after appending each of `xs` in turn to `start`.
pub open spec fn append_all<T>(start: Seq<T>, xs: Seq<T>, cap: int) -> Seq<T>
    decreases xs.len(),
{
    if xs.len() == 0 {
        start
    } else {
        keep_latest(append_all(start, xs.drop_last(), cap).push(xs.last()), cap)
    }
}

/// The bounded, ordered sequence of the most recent snapshots.
///
/// In instantaneous mode it keeps the last two snapshots; in averaging mode
/// over `times` intervals it keeps the last `times + 1`.
pub struct HistoryWindow {
    snapshots: Vec<Snapshot>,
    averaging: bool,
    times: usize,
}

impl HistoryWindow {
    pub closed spec fn view(&self) -> Seq<SnapshotView> {
        self.snapshots@.map_values(|s: Snapshot| s@)
    }

    pub closed spec fn is_averaging(&self) -> bool {
        self.averaging
    }

    /// The requested number of intervals to average over.
    pub closed spec fn times(&self) -> nat {
        self.times as nat
    }

    /// How many snapshots the window keeps.
    pub open spec fn capacity(&self) -> int {
        if self.is_averaging() {
            self.times() as int + 1
        } else {
            2
        }
    }

    pub open spec fn wf(&self) -> bool {
        self.view().len() <= self.capacity()
    }

    pub fn new(averaging: bool, times: usize) -> (r: HistoryWindow)
        ensures
            r.wf(),
            r.view() == Seq::<SnapshotView>::empty(),
            r.is_averaging() == averaging,
            r.times() == times,
    {
        let r = HistoryWindow { snapshots: Vec::new(), averaging, times };
        assert(r.view() =~= Seq::<SnapshotView>::empty());
        r
    }

    pub fn len(&self) -> (r: usize)
        ensures
            r == self.view().len(),
    {
        self.snapshots.len()
    }

    pub fn averaging(&self) -> (r: bool)
        ensures
            r == self.is_averaging(),
    {
        self.averaging
    }

    pub fn requested_times(&self) -> (r: usize)
        ensures
            r == self.times(),
    {
        self.times
    }

    /// The snapshot at position `i`, oldest first.
    pub fn get(&self, i: usize) -> (r: &Snapshot)
        requires
            i < self.view().len(),
        ensures
            r@ == self.view()[i as int],
    {
        &self.snapshots[i]
    }

    /// Adds `s` as the newest snapshot, dropping the oldest one if the window
    /// would otherwise exceed its capacity.
    pub fn append(&mut self, s: Snapshot)
        requires
            old(self).wf(),
        ensures
            final(self).wf(),
            final(self).is_averaging() == old(self).is_averaging(),
            final(self).times() == old(self).times(),
            final(self).view() == keep_latest(old(self).view().push(s@), old(self).capacity()),
    {
        let ghost sv = s@;
        self.snapshots.push(s);
        assert(self.view() =~= old(self).view().push(sv));
        if !self.averaging && self.snapshots.len() > 2 || self.averaging && self.snapshots.len() - 1
            > self.times {
            self.snapshots.remove(0);
            assert(self.view() =~= keep_latest(old(self).view().push(sv), old(self).capacity()));
        }
    }
}

/// Whatever was appended, a window never holds more than its capacity, and it
/// holds exactly the latest appended snapshots, oldest first: appending `xs` to a
/// well-formed window keeps the last `capacity` entries of everything seen.
pub proof fn lemma_window_fifo<T>(start: Seq<T>, xs: Seq<T>, cap: int)
    requires
        cap >= 1,
        start.len() <= cap,
    ensures
        append_all(start, xs, cap).len() <= cap,
        append_all(start, xs, cap) == keep_latest(start + xs, cap),
    decreases xs.len(),
{
    if xs.len() == 0 {
        assert(start + xs =~= start);
    } else {
        lemma_window_fifo(start, xs.drop_last(), cap);
        let all = start + xs;
        assert(start + xs.drop_last() =~= all.drop_last());
        let prev = keep_latest(all.drop_last(), cap);
        if all.drop_last().len() <= cap {
            assert(prev.push(xs.last()) =~= all);
        } else {
            assert(prev.push(xs.last()) =~= all.subrange(all.len() - 1 - cap, all.len() as int));
            assert(keep_latest(prev.push(xs.last()), cap) =~= keep_latest(all, cap));
        }
    }
}

} // verus!
