use vstd::prelude::*;
use crate::counter::LabeledCounter;
use crate::histogram::{fits, observed, Histogram};
use crate::labels::{LabelKey, LabelSet};
use crate::status::{class_of, classify, StatusClass};

verus! {

/// The duration histogram's bucket bounds, in milliseconds:
/// 0.005, 0.01, 0.02, 0.05, 0.1, 0.2, 0.5, 0.7, 1 and 2 seconds.
pub open spec fn duration_bounds() -> Seq<u64> {
    seq![5, 10, 20, 50, 100, 200, 500, 700, 1000, 2000]
}

/// Why a request could not be recorded.
#[derive(Clone, Copy, Debug, PartialEq, Eq, Structural)]
pub enum MetricsError {
    /// A counter or a duration sum would pass the largest `u64`.
    Overflow,
}

/// The instrumentation that wraps every request: it builds the metrics that
/// the middleware records into.
#[derive(Debug)]
pub struct RequestMetadata {}

impl RequestMetadata {
    /// The metrics of a freshly started middleware: every counter at zero,
    /// no series, and the duration histogram with its fixed bounds.
    pub fn new_transform(&self) -> (r: RequestMetrics)
        ensures
            r.wf(),
            r.is_empty(),
    {
        RequestMetrics::new()
    }
}

/// The metrics that the middleware records: `http_requests_total` (no
/// labels), `http_requests_2xx_total`, `http_requests_4xx_total`,
/// `http_requests_5xx_total` and `http_requests_duration_seconds` (each
/// labelled by path, method and status).
#[derive(Debug)]
pub struct RequestMetrics {
    total: u64,
    requests_2xx: LabeledCounter,
    requests_4xx: LabeledCounter,
    requests_5xx: LabeledCounter,
    duration: Histogram,
}

/// Whether `new` is `old` after one request with labels `k` that took `v`
/// milliseconds: the total grows by one, the counter of the status's class
/// (if it has one) grows by one at `k`, and the duration histogram gains
/// one observation of `v` at `k`. Nothing else changes.
pub open spec fn records(old: RequestMetrics, new: RequestMetrics, k: LabelKey, v: nat) -> bool {
    &&& new.total() == old.total() + 1
    &&& forall|c: StatusClass, l: LabelKey|
        c != StatusClass::Unclassified ==> #[trigger] new.class_count(c, l) == old.class_count(c, l) + (
        if c == class_of(k.2 as int) && l == k {
            1nat
        } else {
            0nat
        })
    &&& new.duration().of(k) == observed(old.duration().of(k), duration_bounds(), v)
    &&& forall|l: LabelKey| l != k ==> #[trigger] new.duration().of(l) == old.duration().of(l)
}

/// Every request is counted once: after a run of recorded requests,
/// whatever their labels, statuses and durations, `http_requests_total` has
/// grown by exactly the number of requests.
pub proof fn lemma_total_counts_every_request(states: Seq<RequestMetrics>, keys: Seq<LabelKey>, ms: Seq<nat>)
    requires
        states.len() == keys.len() + 1,
        ms.len() == keys.len(),
        forall|i: int| 0 <= i < keys.len() ==> records(#[trigger] states[i], states[i + 1], keys[i], ms[i]),
    ensures
        states.last().total() == states[0].total() + keys.len(),
    decreases keys.len(),
{
    if keys.len() > 0 {
        let n = keys.len() - 1;
        let s = states.drop_last();
        assert forall|i: int| 0 <= i < keys.drop_last().len() implies records(#[trigger] s[i], s[i + 1], keys.drop_last()[i], ms.drop_last()[i]) by {
            assert(records(states[i], states[i + 1], keys[i], ms[i]));
        }
        lemma_total_counts_every_request(s, keys.drop_last(), ms.drop_last());
        assert(records(states[n], states[n + 1], keys[n], ms[n]));
    }
}

/// Each request lands in the counter of its status class: with `k` the
/// labels of a recorded request, the counter of `class_of(k.2)` grows by one
/// at `k` and the two other class counters stay as they were, at every label set.
pub proof fn lemma_request_counted_in_its_class(old: RequestMetrics, new: RequestMetrics, k: LabelKey, v: nat)
    requires
        records(old, new, k, v),
    ensures
        class_of(k.2 as int) != StatusClass::Unclassified ==> new.class_count(class_of(k.2 as int), k) == old.class_count(class_of(k.2 as int), k) + 1,
        forall|c: StatusClass, l: LabelKey| c != class_of(k.2 as int) ==> #[trigger] new.class_count(c, l) == old.class_count(c, l),
        new.total() == old.total() + 1,
{
    assert forall|c: StatusClass, l: LabelKey| c != class_of(k.2 as int) implies #[trigger] new.class_count(c, l) == old.class_count(c, l) by {
        if c != StatusClass::Unclassified {
            assert(new.class_count(c, l) == old.class_count(c, l) + 0);
        }
    }
    if class_of(k.2 as int) != StatusClass::Unclassified {
        assert(new.class_count(class_of(k.2 as int), k) == old.class_count(class_of(k.2 as int), k) + 1);
    }
}

impl RequestMetrics {
    /// The value of `http_requests_total`.
    pub closed spec fn total(&self) -> nat {
        self.total as nat
    }

    /// The counter of a class of status codes (`Unclassified` has none: its
    /// value here is of no meaning).
    pub closed spec fn classified(&self, c: StatusClass) -> LabeledCounter {
        match c {
            StatusClass::Success => self.requests_2xx,
            StatusClass::ClientError => self.requests_4xx,
            _ => self.requests_5xx,
        }
    }

    /// The value at labels `l` of the counter of class `c`; zero for `Unclassified`.
    pub open spec fn class_count(&self, c: StatusClass, l: LabelKey) -> nat {
        if c == StatusClass::Unclassified {
            0
        } else {
            self.classified(c).count(l)
        }
    }

    /// The duration histogram.
    pub closed spec fn duration(&self) -> Histogram {
        self.duration
    }

    pub open spec fn wf(&self) -> bool {
        &&& self.classified(StatusClass::Success).wf()
        &&& self.classified(StatusClass::ClientError).wf()
        &&& self.classified(StatusClass::ServerError).wf()
        &&& self.duration().wf()
        &&& self.duration().bounds() == duration_bounds()
    }

    /// Nothing was recorded yet.
    pub open spec fn is_empty(&self) -> bool {
        &&& self.total() == 0
        &&& forall|c: StatusClass, l: LabelKey| #[trigger] self.class_count(c, l) == 0
        &&& self.classified(StatusClass::Success).series().len() == 0
        &&& self.classified(StatusClass::ClientError).series().len() == 0
        &&& self.classified(StatusClass::ServerError).series().len() == 0
        &&& self.duration().series().len() == 0
    }

    pub fn new() -> (r: RequestMetrics)
        ensures
            r.wf(),
            r.is_empty(),
    {
        let r = RequestMetrics {
            total: 0,
            requests_2xx: LabeledCounter::new(),
            requests_4xx: LabeledCounter::new(),
            requests_5xx: LabeledCounter::new(),
            duration: Histogram::new(vec![5, 10, 20, 50, 100, 200, 500, 700, 1000, 2000]),
        };
        assert(r.duration().bounds() =~= duration_bounds());
        r
    }

    /// The value of `http_requests_total`.
    pub fn requests_total(&self) -> (r: u64)
        ensures
            r == self.total(),
    {
        self.total
    }

    /// The counter of the status class `c`: `http_requests_2xx_total`,
    /// `http_requests_4xx_total` or `http_requests_5xx_total`.
    pub fn counter(&self, c: StatusClass) -> (r: Option<&LabeledCounter>)
        ensures
            c == StatusClass::Unclassified ==> r is None,
            c != StatusClass::Unclassified ==> r == Some(&self.classified(c)),
    {
        match c {
            StatusClass::Success => Some(&self.requests_2xx),
            StatusClass::ClientError => Some(&self.requests_4xx),
            StatusClass::ServerError => Some(&self.requests_5xx),
            StatusClass::Unclassified => None,
        }
    }

    /// The histogram `http_requests_duration_seconds`, in milliseconds.
    pub fn duration_histogram(&self) -> (r: &Histogram)
        ensures
            *r == self.duration(),
    {
        &self.duration
    }

    /// Whether one more request with labels `k` taking `v` milliseconds fits
    /// in every counter it touches.
    pub open spec fn can_record(&self, k: LabelKey, v: nat) -> bool {
        &&& self.total() < u64::MAX
        &&& class_of(k.2 as int) != StatusClass::Unclassified
            ==> self.class_count(class_of(k.2 as int), k) < u64::MAX
        &&& fits(self.duration().of(k), v)
    }

    /// Records one completed request whose response carried `labels` and
    /// that took `elapsed_ms` milliseconds from entry to response. Returns the
    /// class of its status. Where a counter would overflow, records nothing
    /// and fails.
    pub fn record(&mut self, labels: &LabelSet, elapsed_ms: u64) -> (r: Result<StatusClass, MetricsError>)
        requires
            old(self).wf(),
        ensures
            final(self).wf(),
            r is Ok <==> old(self).can_record(labels@, elapsed_ms as nat),
            r matches Ok(c) ==> c == class_of(labels.status as int),
            r is Ok ==> records(*old(self), *final(self), labels@, elapsed_ms as nat),
            r is Err ==> r == Err::<StatusClass, MetricsError>(MetricsError::Overflow) && *final(self) == *old(self),
    {
        let class = classify(labels.status);
        if self.total == u64::MAX {
            return Err(MetricsError::Overflow);
        }
        let room = match class {
            StatusClass::Success => self.requests_2xx.get(labels) < u64::MAX,
            StatusClass::ClientError => self.requests_4xx.get(labels) < u64::MAX,
            StatusClass::ServerError => self.requests_5xx.get(labels) < u64::MAX,
            StatusClass::Unclassified => true,
        };
        if !room {
            return Err(MetricsError::Overflow);
        }
        let s = self.duration.get(labels);
        if !(s.count < u64::MAX && s.sum_ms <= u64::MAX - elapsed_ms) {
            return Err(MetricsError::Overflow);
        }
        let ghost before = *self;
        match class {
            StatusClass::Success => {
                self.requests_2xx.add(labels, 1);
            },
            StatusClass::ClientError => {
                self.requests_4xx.add(labels, 1);
            },
            StatusClass::ServerError => {
                self.requests_5xx.add(labels, 1);
            },
            StatusClass::Unclassified => {},
        }
        self.duration.observe(labels, elapsed_ms);
        self.total = self.total + 1;
        Ok(class)
    }

    /// Records a completed request as `record` does and hands back the
    /// response untouched, whether recording succeeded or not.
    pub fn complete<B>(&mut self, response: B, labels: &LabelSet, elapsed_ms: u64) -> (r: (B, Result<StatusClass, MetricsError>))
        requires
            old(self).wf(),
        ensures
            r.0 == response,
            final(self).wf(),
            r.1 is Ok <==> old(self).can_record(labels@, elapsed_ms as nat),
            r.1 matches Ok(c) ==> c == class_of(labels.status as int),
            r.1 is Ok ==> records(*old(self), *final(self), labels@, elapsed_ms as nat),
            r.1 is Err ==> *final(self) == *old(self),
    {
        let outcome = self.record(labels, elapsed_ms);
        (response, outcome)
    }
}

} // verus!
