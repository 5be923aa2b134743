use std::collections::VecDeque;
use vstd::prelude::*;

use crate::metrics::MetricSample;

verus! {

broadcast use vstd::std_specs::vecdeque::group_vec_dequeue_axioms;

/// Number of samples the history keeps: two minutes at the sampling period.
pub const HISTORY_CAPACITY: usize = 600;

/// What the history holds after `s` is appended to `h`: the oldest sample
/// leaves once the capacity is exceeded.
pub open spec fn appended(h: Seq<MetricSample>, s: MetricSample) -> Seq<MetricSample> {
    if h.len() + 1 > HISTORY_CAPACITY {
        h.push(s).drop_first()
    } else {
        h.push(s)
    }
}

/// Bounded, oldest-first sliding window of samples.
pub struct HistoryStore {
    samples: VecDeque<MetricSample>,
}

impl View for HistoryStore {
    type V = Seq<MetricSample>;

    closed spec fn view(&self) -> Seq<MetricSample> {
        self.samples@
    }
}

impl HistoryStore {
    pub closed spec fn wf(&self) -> bool {
        self.samples@.len() <= HISTORY_CAPACITY
    }

    pub fn new() -> (r: HistoryStore)
        ensures
            r.wf(),
            r@ == Seq::<MetricSample>::empty(),
    {
        HistoryStore { samples: VecDeque::new() }
    }

    pub fn len(&self) -> (r: usize)
        requires
            self.wf(),
        ensures
            r == self@.len(),
            r <= HISTORY_CAPACITY,
    {
        self.samples.len()
    }

    /// The sample at position `i`, oldest first.
    pub fn get(&self, i: usize) -> (r: MetricSample)
        requires
            i < self@.len(),
        ensures
            r == self@[i as int],
    {
        self.samples[i]
    }

    /// The newest sample, if any.
    pub fn last(&self) -> (r: Option<MetricSample>)
        requires
            self.wf(),
        ensures
            self@.len() == 0 ==> r.is_none(),
            self@.len() > 0 ==> r == Some(self@.last()),
    {
        let n = self.samples.len();
        if n == 0 {
            None
        } else {
            Some(self.samples[n - 1])
        }
    }

    /// Adds `sample` at the tail and evicts the oldest sample once more than
    /// the capacity are held.
    pub fn append(&mut self, sample: MetricSample)
        requires
            old(self).wf(),
        ensures
            final(self).wf(),
            final(self)@ == appended(old(self)@, sample),
    {
        self.samples.push_back(sample);
        if self.samples.len() > HISTORY_CAPACITY {
            let _ = self.samples.pop_front();
        }
    }
}

/// The history never holds more than its capacity; once full, an append drops
/// exactly the oldest sample, so the former second sample becomes the first
/// and the new sample becomes the last.
pub proof fn lemma_append_bounded(h: Seq<MetricSample>, s: MetricSample)
    requires
        h.len() <= HISTORY_CAPACITY,
    ensures
        appended(h, s).len() <= HISTORY_CAPACITY,
        appended(h, s).last() == s,
        h.len() < HISTORY_CAPACITY ==> appended(h, s) == h.push(s),
        h.len() == HISTORY_CAPACITY ==> appended(h, s) == h.subrange(1, h.len() as int).push(s),
        h.len() == HISTORY_CAPACITY ==> appended(h, s)[0] == h[1],
{
    if h.len() == HISTORY_CAPACITY {
        assert(h.push(s).drop_first() =~= h.subrange(1, h.len() as int).push(s));
    }
}

/// What the history holds after appending each of `xs` in turn to `h`.
pub open spec fn appended_all(h: Seq<MetricSample>, xs: Seq<MetricSample>) -> Seq<MetricSample>
    decreases xs.len(),
{
    if xs.len() == 0 {
        h
    } else {
        appended_all(appended(h, xs[0]), xs.drop_first())
    }
}

/// Whatever samples are appended, and however many, the history stays
/// within its capacity.
pub proof fn lemma_appends_bounded(h: Seq<MetricSample>, xs: Seq<MetricSample>)
    requires
        h.len() <= HISTORY_CAPACITY,
    ensures
        appended_all(h, xs).len() <= HISTORY_CAPACITY,
    decreases xs.len(),
{
    if xs.len() > 0 {
        lemma_append_bounded(h, xs[0]);
        lemma_appends_bounded(appended(h, xs[0]), xs.drop_first());
    }
}

} // verus!
