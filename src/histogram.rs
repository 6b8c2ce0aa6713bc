use vstd::prelude::*;
use crate::labels::{keys_of, keys_sorted, lemma_insert_sorted, lemma_key_lt_irreflexive, lemma_sorted_distinct, locate, LabelKey, LabelSet};

verus! {

/// Observations of one label set. `le[b]` counts the observations at or
/// below the `b`-th bound; `count` counts them all.
#[derive(Debug)]
pub struct HistogramSeries {
    pub le: Vec<u64>,
    pub sum_ms: u64,
    pub count: u64,
}

/// What a series is, mathematically.
pub struct SeriesView {
    pub le: Seq<nat>,
    pub sum_ms: nat,
    pub count: nat,
}

impl View for HistogramSeries {
    type V = SeriesView;

    open spec fn view(&self) -> SeriesView {
        SeriesView {
            le: self.le@.map_values(|x: u64| x as nat),
            sum_ms: self.sum_ms as nat,
            count: self.count as nat,
        }
    }
}

/// The series of a label set that nothing was observed for.
pub open spec fn empty_series(nb: nat) -> SeriesView {
    SeriesView { le: Seq::new(nb, |b: int| 0nat), sum_ms: 0, count: 0 }
}

/// The series `s` after one more observation of `v` milliseconds.
pub open spec fn observed(s: SeriesView, bounds: Seq<u64>, v: nat) -> SeriesView {
    SeriesView {
        le: Seq::new(s.le.len(), |b: int| if v <= bounds[b] { s.le[b] + 1 } else { s.le[b] }),
        sum_ms: s.sum_ms + v,
        count: s.count + 1,
    }
}

/// Whether one more observation of `v` fits in the counters of `s`.
pub open spec fn fits(s: SeriesView, v: nat) -> bool {
    s.count < u64::MAX && s.sum_ms + v <= u64::MAX
}

/// A histogram of durations in whole milliseconds, with fixed bucket bounds,
/// partitioned by label set. Series are kept sorted by label set.
#[derive(Debug)]
pub struct Histogram {
    bounds: Vec<u64>,
    series: Vec<(LabelSet, HistogramSeries)>,
}

impl Histogram {
    /// The bucket bounds, in milliseconds.
    pub closed spec fn bounds(&self) -> Seq<u64> {
        self.bounds@
    }

    /// The series, sorted by label set.
    pub closed spec fn series(&self) -> Seq<(LabelKey, SeriesView)> {
        self.series@.map_values(|e: (LabelSet, HistogramSeries)| (e.0@, e.1@))
    }

    /// The label sets of the series, in their order.
    pub closed spec fn keys(&self) -> Seq<LabelKey> {
        keys_of(self.series@)
    }

    /// The series are sorted by label set, so no two share one; each has one
    /// count per bound; and in each, no bucket counts more than the series does.
    pub open spec fn wf(&self) -> bool {
        &&& keys_sorted(self.keys())
        &&& self.keys().len() == self.series().len()
        &&& forall|i: int| 0 <= i < self.series().len() ==> #[trigger] self.series()[i].0 == self.keys()[i]
        &&& forall|i: int|
            0 <= i < self.series().len() ==> (#[trigger] self.series()[i]).1.le.len() == self.bounds().len()
        &&& forall|i: int, b: int|
            0 <= i < self.series().len() && 0 <= b < self.bounds().len()
                ==> #[trigger] self.series()[i].1.le[b] <= self.series()[i].1.count
    }

    /// Whether some series carries the label set `k`.
    pub open spec fn has(&self, k: LabelKey) -> bool {
        exists|i: int| 0 <= i < self.series().len() && #[trigger] self.series()[i].0 == k
    }

    /// The series of label set `k`; an empty one where there is none.
    pub open spec fn of(&self, k: LabelKey) -> SeriesView {
        if self.has(k) {
            self.series()[choose|i: int| 0 <= i < self.series().len() && #[trigger] self.series()[i].0 == k].1
        } else {
            empty_series(self.bounds().len())
        }
    }

    /// A histogram with the given bucket bounds and no series.
    pub fn new(bounds: Vec<u64>) -> (r: Histogram)
        ensures
            r.wf(),
            r.bounds() == bounds@,
            r.series().len() == 0,
    {
        Histogram { bounds, series: Vec::new() }
    }

    /// The bucket bounds, in milliseconds.
    pub fn bucket_bounds(&self) -> (r: &Vec<u64>)
        ensures
            r@ == self.bounds(),
    {
        &self.bounds
    }

    /// The number of series.
    pub fn len(&self) -> (r: usize)
        ensures
            r == self.series().len(),
    {
        self.series.len()
    }

    /// The label set and observations of the series at `i`.
    pub fn entry(&self, i: usize) -> (r: (&LabelSet, &HistogramSeries))
        requires
            i < self.series().len(),
        ensures
            r.0@ == self.series()[i as int].0,
            r.1@ == self.series()[i as int].1,
    {
        (&self.series[i].0, &self.series[i].1)
    }

    /// The index of the series of `labels`, or the place where it belongs.
    fn find(&self, labels: &LabelSet) -> (r: Result<usize, usize>)
        requires
            self.wf(),
        ensures
            r matches Ok(i) ==> i < self.series().len() && self.series()[i as int].0 == labels@
                && self.of(labels@) == self.series()[i as int].1,
            r matches Err(p) ==> !self.has(labels@) && crate::labels::slot_of(self.keys(), labels@, p as int),
    {
        proof {
            lemma_sorted_distinct(self.keys());
            lemma_key_lt_irreflexive();
        }
        let r = locate(&self.series, labels);
        proof {
            if self.has(labels@) {
                let j = choose|j: int| 0 <= j < self.series().len() && #[trigger] self.series()[j].0 == labels@;
                assert(self.keys()[j] == labels@);
                if let Ok(i) = r {
                    assert(self.keys()[i as int] == labels@);
                }
            }
        }
        r
    }

    /// The series of label set `labels`: a copy of its observations.
    pub fn get(&self, labels: &LabelSet) -> (r: HistogramSeries)
        requires
            self.wf(),
        ensures
            r@ == self.of(labels@),
    {
        match self.find(labels) {
            Ok(i) => {
                let s = &self.series[i].1;
                HistogramSeries { le: s.le.clone(), sum_ms: s.sum_ms, count: s.count }
            },
            Err(_) => {
                let s = Self::empty(self.bounds.len());
                assert(s@.le =~= empty_series(self.bounds().len()).le);
                s
            },
        }
    }

    fn empty(nb: usize) -> (r: HistogramSeries)
        ensures
            r@.le.len() == nb,
            forall|b: int| 0 <= b < nb ==> r@.le[b] == 0,
            r@.sum_ms == 0,
            r@.count == 0,
    {
        let mut le: Vec<u64> = Vec::new();
        while le.len() < nb
            invariant
                le@.len() <= nb,
                forall|b: int| 0 <= b < le@.len() ==> le@[b] == 0,
            decreases nb - le@.len(),
        {
            le.push(0);
        }
        HistogramSeries { le, sum_ms: 0, count: 0 }
    }

    /// The series `s` after one observation of `v` milliseconds.
    fn step(s: &HistogramSeries, bounds: &Vec<u64>, v: u64) -> (r: HistogramSeries)
        requires
            s@.le.len() == bounds@.len(),
            forall|b: int| 0 <= b < bounds@.len() ==> #[trigger] s@.le[b] <= s@.count,
            fits(s@, v as nat),
        ensures
            r@ == observed(s@, bounds@, v as nat),
    {
        let mut le: Vec<u64> = Vec::new();
        let mut b: usize = 0;
        while b < bounds.len()
            invariant
                b <= bounds@.len(),
                s@.le.len() == bounds@.len(),
                le@.len() == b,
                forall|c: int| 0 <= c < bounds@.len() ==> #[trigger] s@.le[c] <= s@.count,
                s@.count < u64::MAX,
                forall|c: int| 0 <= c < b ==> le@[c] == (if v <= bounds@[c] { s@.le[c] + 1 } else { s@.le[c] }),
            decreases bounds@.len() - b,
        {
            assert(s@.le[b as int] == s.le@[b as int]);
            if v <= bounds[b] {
                le.push(s.le[b] + 1);
            } else {
                le.push(s.le[b]);
            }
            b = b + 1;
        }
        let r = HistogramSeries { le, sum_ms: s.sum_ms + v, count: s.count + 1 };
        assert(r@.le =~= observed(s@, bounds@, v as nat).le);
        r
    }

    /// Records one observation of `v` milliseconds in the series of
    /// `labels`, creating it at the end where there is none. Fails, and
    /// changes nothing, where a counter of that series would overflow.
    pub fn observe(&mut self, labels: &LabelSet, v: u64) -> (r: bool)
        requires
            old(self).wf(),
        ensures
            final(self).wf(),
            final(self).bounds() == old(self).bounds(),
            r == fits(old(self).of(labels@), v as nat),
            r ==> final(self).of(labels@) == observed(old(self).of(labels@), old(self).bounds(), v as nat),
            r ==> forall|k: LabelKey| k != labels@ ==> final(self).of(k) == old(self).of(k),
            !r ==> *final(self) == *old(self),
    {
        let ghost before = self.series();
        match self.find(labels) {
            Ok(i) => {
                if !(self.series[i].1.count < u64::MAX && self.series[i].1.sum_ms <= u64::MAX - v) {
                    return false;
                }
                assert(self.series()[i as int].1 == self.series@[i as int].1@);
                let next = Self::step(&self.series[i].1, &self.bounds, v);
                let key = self.series[i].0.duplicate();
                self.series.set(i, (key, next));
                proof {
                    assert(self.series() =~= before.update(i as int, (labels@, next@)));
                    assert(self.keys() =~= old(self).keys());
                    lemma_sorted_distinct(self.keys());
                    assert(self.series()[i as int].0 == labels@);
                    let j = choose|j: int| 0 <= j < self.series().len() && #[trigger] self.series()[j].0 == labels@;
                    assert(self.keys()[j] == labels@ && self.keys()[i as int] == labels@);
                    Self::lemma_other_series_kept(old(self), self, labels@, i as int, false);
                }
                true
            },
            Err(p) => {
                let e = Self::empty(self.bounds.len());
                assert(e@ == empty_series(self.bounds().len())) by {
                    assert(e@.le =~= empty_series(self.bounds().len()).le);
                }
                let next = Self::step(&e, &self.bounds, v);
                self.series.insert(p, (labels.duplicate(), next));
                proof {
                    assert(self.series() =~= before.insert(p as int, (labels@, next@)));
                    assert(self.keys() =~= old(self).keys().insert(p as int, labels@));
                    lemma_insert_sorted(old(self).keys(), labels@, p as int);
                    lemma_sorted_distinct(self.keys());
                    assert(self.series()[p as int].0 == labels@);
                    let j = choose|j: int| 0 <= j < self.series().len() && #[trigger] self.series()[j].0 == labels@;
                    assert(self.keys()[j] == labels@ && self.keys()[p as int] == labels@);
                    Self::lemma_other_series_kept(old(self), self, labels@, p as int, true);
                }
                true
            },
        }
    }

    /// Where `new_h` is `old_h` with the series at `p` replaced, or with one
    /// inserted at `p`, and that series has label set `key`, no other label
    /// set's series changed.
    proof fn lemma_other_series_kept(old_h: &Histogram, new_h: &Histogram, key: LabelKey, p: int, inserted: bool)
        requires
            old_h.wf(),
            new_h.wf(),
            new_h.bounds() == old_h.bounds(),
            0 <= p < new_h.series().len(),
            p <= old_h.series().len(),
            !inserted ==> p < old_h.series().len(),
            new_h.series()[p].0 == key,
            inserted ==> new_h.series() == old_h.series().insert(p, new_h.series()[p]),
            !inserted ==> new_h.series() == old_h.series().update(p, new_h.series()[p]),
            !inserted ==> old_h.series()[p].0 == key,
        ensures
            forall|k: LabelKey| k != key ==> #[trigger] new_h.of(k) == old_h.of(k),
    {
        lemma_sorted_distinct(old_h.keys());
        lemma_sorted_distinct(new_h.keys());
        let before = old_h.series();
        assert forall|k: LabelKey| k != key implies #[trigger] new_h.of(k) == old_h.of(k) by {
            if new_h.has(k) {
                let j = choose|j: int| 0 <= j < new_h.series().len() && #[trigger] new_h.series()[j].0 == k;
                assert(j != p);
                if inserted && j > p {
                    assert(new_h.series()[j] == before[j - 1]);
                    assert(old_h.keys()[j - 1] == k);
                } else {
                    assert(new_h.series()[j] == before[j]);
                    assert(old_h.keys()[j] == k);
                }
            }
            if old_h.has(k) {
                let j = choose|j: int| 0 <= j < before.len() && #[trigger] before[j].0 == k;
                assert(inserted || j != p);
                if inserted && j >= p {
                    assert(new_h.series()[j + 1] == before[j]);
                    assert(new_h.series()[j + 1].0 == k);
                    assert(new_h.keys()[j + 1] == k);
                } else {
                    assert(new_h.series()[j] == before[j]);
                    assert(new_h.keys()[j] == k);
                }
            }
        }
    }
}

} // verus!
