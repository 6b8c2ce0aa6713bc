use vstd::prelude::*;
use crate::labels::{keys_of, keys_sorted, lemma_insert_sorted, lemma_sorted_distinct, locate, LabelKey, LabelSet};

verus! {

/// A monotonically increasing integer metric, partitioned by label set.
/// Each label set has at most one series; series are kept sorted by label set.
#[derive(Debug)]
pub struct LabeledCounter {
    series: Vec<(LabelSet, u64)>,
}

impl LabeledCounter {
    /// The series, sorted by label set.
    pub closed spec fn series(&self) -> Seq<(LabelKey, nat)> {
        self.series@.map_values(|e: (LabelSet, u64)| (e.0@, e.1 as nat))
    }

    /// The label sets of the series, in their order.
    pub closed spec fn keys(&self) -> Seq<LabelKey> {
        keys_of(self.series@)
    }

    /// The series are sorted by label set, so no two share one.
    pub open spec fn wf(&self) -> bool {
        &&& keys_sorted(self.keys())
        &&& self.keys().len() == self.series().len()
        &&& forall|i: int| 0 <= i < self.series().len() ==> #[trigger] self.series()[i].0 == self.keys()[i]
    }

    /// Whether some series carries the label set `k`.
    pub open spec fn has(&self, k: LabelKey) -> bool {
        exists|i: int| 0 <= i < self.series().len() && #[trigger] self.series()[i].0 == k
    }

    /// The value of the series with label set `k`; zero where there is none.
    pub open spec fn count(&self, k: LabelKey) -> nat {
        if self.has(k) {
            self.series()[choose|i: int| 0 <= i < self.series().len() && #[trigger] self.series()[i].0 == k].1
        } else {
            0
        }
    }

    pub fn new() -> (r: LabeledCounter)
        ensures
            r.wf(),
            r.series().len() == 0,
            forall|k: LabelKey| r.count(k) == 0,
    {
        LabeledCounter { series: Vec::new() }
    }

    /// The number of series.
    pub fn len(&self) -> (r: usize)
        ensures
            r == self.series().len(),
    {
        self.series.len()
    }

    /// The label set and value of the series at `i`.
    pub fn entry(&self, i: usize) -> (r: (&LabelSet, u64))
        requires
            i < self.series().len(),
        ensures
            r.0@ == self.series()[i as int].0,
            r.1 == self.series()[i as int].1,
    {
        (&self.series[i].0, self.series[i].1)
    }

    /// The value of the series with label set `labels`; zero where there is none.
    pub fn get(&self, labels: &LabelSet) -> (r: u64)
        requires
            self.wf(),
        ensures
            r == self.count(labels@),
    {
        proof {
            lemma_sorted_distinct(self.keys());
        }
        match locate(&self.series, labels) {
            Ok(i) => {
                assert(self.series()[i as int].0 == labels@);
                self.series[i].1
            },
            Err(p) => {
                assert(!self.has(labels@)) by {
                    if self.has(labels@) {
                        let j = choose|j: int| 0 <= j < self.series().len() && #[trigger] self.series()[j].0 == labels@;
                        crate::labels::lemma_key_lt_irreflexive();
                        assert(self.keys()[j] == labels@);
                    }
                }
                0
            },
        }
    }

    /// Adds `delta` to the series with label set `labels`, creating it at the
    /// end where there is none. Fails, and changes nothing, where the sum would
    /// not fit in a `u64`.
    pub fn add(&mut self, labels: &LabelSet, delta: u64) -> (r: bool)
        requires
            old(self).wf(),
        ensures
            final(self).wf(),
            r == (old(self).count(labels@) + delta <= u64::MAX),
            r ==> final(self).count(labels@) == old(self).count(labels@) + delta,
            r ==> forall|k: LabelKey| k != labels@ ==> final(self).count(k) == old(self).count(k),
            !r ==> *final(self) == *old(self),
    {
        proof {
            lemma_sorted_distinct(self.keys());
        }
        let ghost before = self.series();
        match locate(&self.series, labels) {
            Ok(i) => {
                assert(self.series()[i as int].0 == labels@);
                let v = self.series[i].1;
                proof {
                    let j = choose|j: int| 0 <= j < before.len() && #[trigger] before[j].0 == labels@;
                    assert(old(self).keys()[j] == labels@ && old(self).keys()[i as int] == labels@);
                }
                if v > u64::MAX - delta {
                    return false;
                }
                let key = self.series[i].0.duplicate();
                self.series.set(i, (key, v + delta));
                proof {
                    assert(self.series() =~= before.update(i as int, (labels@, (v + delta) as nat)));
                    assert(self.keys() =~= old(self).keys());
                    lemma_sorted_distinct(self.keys());
                    assert(self.series()[i as int].0 == labels@);
                    let j = choose|j: int| 0 <= j < self.series().len() && #[trigger] self.series()[j].0 == labels@;
                    assert(self.keys()[j] == labels@ && self.keys()[i as int] == labels@);
                    assert forall|k: LabelKey| k != labels@ implies self.count(k) == old(self).count(k) by {
                        if self.has(k) {
                            let j = choose|j: int| 0 <= j < self.series().len() && #[trigger] self.series()[j].0 == k;
                            assert(before[j].0 == k);
                        }
                        if old(self).has(k) {
                            let j = choose|j: int| 0 <= j < before.len() && #[trigger] before[j].0 == k;
                            assert(self.series()[j].0 == k);
                        }
                    }
                }
                true
            },
            Err(p) => {
                proof {
                    crate::labels::lemma_key_lt_irreflexive();
                    assert(!old(self).has(labels@)) by {
                        if old(self).has(labels@) {
                            let j = choose|j: int| 0 <= j < before.len() && #[trigger] before[j].0 == labels@;
                            assert(old(self).keys()[j] == labels@);
                        }
                    }
                }
                self.series.insert(p, (labels.duplicate(), delta));
                proof {
                    assert(self.series() =~= before.insert(p as int, (labels@, delta as nat)));
                    assert(self.keys() =~= old(self).keys().insert(p as int, labels@));
                    lemma_insert_sorted(old(self).keys(), labels@, p as int);
                    lemma_sorted_distinct(self.keys());
                    assert(self.series()[p as int].0 == labels@);
                    let j = choose|j: int| 0 <= j < self.series().len() && #[trigger] self.series()[j].0 == labels@;
                    assert(self.keys()[j] == labels@ && self.keys()[p as int] == labels@);
                    assert forall|k: LabelKey| k != labels@ implies self.count(k) == old(self).count(k) by {
                        if self.has(k) {
                            let j = choose|j: int| 0 <= j < self.series().len() && #[trigger] self.series()[j].0 == k;
                            if j < p {
                                assert(before[j].0 == k);
                            } else {
                                assert(before[j - 1].0 == k);
                            }
                        }
                        if old(self).has(k) {
                            let j = choose|j: int| 0 <= j < before.len() && #[trigger] before[j].0 == k;
                            if j < p {
                                assert(self.series()[j].0 == k);
                            } else {
                                assert(self.series()[j + 1].0 == k);
                            }
                        }
                    }
                }
                true
            },
        }
    }
}

} // verus!
