//! The bounded history of aggregate samples that feeds the charts.
use vstd::prelude::*;
use std::collections::VecDeque;

verus! {

/// Number of samples the history keeps.
pub const HISTORY_CAPACITY: usize = 100;

/// One aggregate sample: CPU usage in hundredths of a percent and memory in use in bytes.
#[derive(Clone, Copy, Debug, PartialEq, Eq, Structural)]
pub struct HistorySample {
    pub cpu_centi: u32,
    pub memory_bytes: u64,
}

/// The most recent `HISTORY_CAPACITY` values of `s`, in order.
pub open spec fn latest_window(s: Seq<HistorySample>) -> Seq<HistorySample> {
    if s.len() > HISTORY_CAPACITY {
        s.skip(s.len() - HISTORY_CAPACITY)
    } else {
        s
    }
}

/// The contents after pushing each of `items`, one by one, onto `start`.
pub open spec fn after_pushes(start: Seq<HistorySample>, items: Seq<HistorySample>) -> Seq<HistorySample>
    decreases items.len(),
{
    if items.len() == 0 {
        start
    } else {
        latest_window(after_pushes(start, items.drop_last()).push(items.last()))
    }
}

/// Any run of pushes onto a history leaves the most recent `HISTORY_CAPACITY`
/// values of everything pushed, oldest first; so the history never holds more
/// than its capacity.
pub proof fn lemma_pushes_keep_latest(start: Seq<HistorySample>, items: Seq<HistorySample>)
    requires
        start.len() <= HISTORY_CAPACITY,
    ensures
        after_pushes(start, items) == latest_window(start + items),
        after_pushes(start, items).len() <= HISTORY_CAPACITY,
    decreases items.len(),
{
    if items.len() > 0 {
        lemma_pushes_keep_latest(start, items.drop_last());
        let all = start + items;
        let prev = start + items.drop_last();
        assert(prev.push(items.last()) =~= all);
        let w = latest_window(prev);
        if prev.len() > HISTORY_CAPACITY {
            assert(latest_window(w.push(items.last())) =~= latest_window(all));
        } else {
            assert(w.push(items.last()) =~= all);
        }
    }
}

/// A first-in first-out buffer of samples that drops the oldest beyond its capacity.
pub struct HistoryRing {
    samples: VecDeque<HistorySample>,
}

impl View for HistoryRing {
    type V = Seq<HistorySample>;

    closed spec fn view(&self) -> Seq<HistorySample> {
        self.samples@
    }
}

impl HistoryRing {
    /// An empty history.
    pub fn new() -> (h: HistoryRing)
        ensures
            h@ == Seq::<HistorySample>::empty(),
    {
        HistoryRing { samples: VecDeque::with_capacity(HISTORY_CAPACITY) }
    }

    /// Appends a sample, first dropping the oldest one when the history is full.
    pub fn push(&mut self, sample: HistorySample)
        requires
            old(self)@.len() <= HISTORY_CAPACITY,
        ensures
            final(self)@ == latest_window(old(self)@.push(sample)),
            final(self)@.len() <= HISTORY_CAPACITY,
    {
        if self.samples.len() >= HISTORY_CAPACITY {
            self.samples.pop_front();
        }
        self.samples.push_back(sample);
        assert(self.samples@ =~= latest_window(old(self)@.push(sample)));
    }

    /// Number of samples held.
    pub fn len(&self) -> (n: usize)
        ensures
            n == self@.len(),
    {
        self.samples.len()
    }

    /// The samples, oldest first.
    pub fn snapshot(&self) -> (r: Vec<HistorySample>)
        ensures
            r@ == self@,
    {
        let mut r: Vec<HistorySample> = Vec::new();
        let mut i: usize = 0;
        while i < self.samples.len()
            invariant
                i <= self.samples@.len(),
                r@ == self.samples@.take(i as int),
            decreases self.samples@.len() - i,
        {
            r.push(self.samples[i]);
            i = i + 1;
            assert(r@ =~= self.samples@.take(i as int));
        }
        assert(r@ =~= self.samples@);
        r
    }
}

} // verus!
