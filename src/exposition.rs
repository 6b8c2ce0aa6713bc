use vstd::prelude::*;
use crate::counter::LabeledCounter;
use crate::histogram::{Histogram, HistogramSeries, SeriesView};
use crate::labels::{LabelKey, LabelSet};
use crate::middleware::{duration_bounds, RequestMetrics};
use crate::status::StatusClass;

verus! {

/// The decimal digit `d`.
pub open spec fn digit_text(d: nat) -> Seq<char> {
    if d == 0 { "0"@ }
    else if d == 1 { "1"@ }
    else if d == 2 { "2"@ }
    else if d == 3 { "3"@ }
    else if d == 4 { "4"@ }
    else if d == 5 { "5"@ }
    else if d == 6 { "6"@ }
    else if d == 7 { "7"@ }
    else if d == 8 { "8"@ }
    else { "9"@ }
}

/// `n` in decimal, without leading zeros.
#[verifier::opaque]
pub open spec fn dec(n: nat) -> Seq<char>
    decreases n,
{
    if n < 10 {
        digit_text(n)
    } else {
        dec(n / 10) + digit_text(n % 10)
    }
}

/// The fractional part of `f` thousandths (`f` < 1000), with its point,
/// without trailing zeros; empty for zero.
pub open spec fn frac_text(f: nat) -> Seq<char> {
    if f == 0 {
        Seq::empty()
    } else if f % 100 == 0 {
        "."@ + digit_text(f / 100)
    } else if f % 10 == 0 {
        "."@ + digit_text(f / 100) + digit_text((f / 10) % 10)
    } else {
        "."@ + digit_text(f / 100) + digit_text((f / 10) % 10) + digit_text(f % 10)
    }
}

/// `ms` milliseconds written in seconds: `0.005`, `0.7`, `2`, `12.345`.
#[verifier::opaque]
pub open spec fn secs_text(ms: nat) -> Seq<char> {
    dec(ms / 1000) + frac_text(ms % 1000)
}

/// A character of a label value as the exposition format writes it: a
/// backslash, a double quote and a line feed are escaped with a backslash.
pub open spec fn escape_char(c: char) -> Seq<char> {
    if c == '\\' {
        "\\\\"@
    } else if c == '"' {
        "\\\""@
    } else if c == '\n' {
        "\\n"@
    } else {
        seq![c]
    }
}

/// A label value with each character escaped.
pub open spec fn escape(s: Seq<char>) -> Seq<char>
    decreases s.len(),
{
    if s.len() == 0 {
        Seq::empty()
    } else {
        escape(s.drop_last()) + escape_char(s.last())
    }
}

/// The labels of a series, as they stand between the braces.
#[verifier::opaque]
pub open spec fn labels_text(k: LabelKey) -> Seq<char> {
    "path=\""@ + escape(k.0) + "\",method=\""@ + escape(k.1) + "\",status=\""@ + dec(k.2 as nat) + "\""@
}

/// One line per series of a labelled counter, in the order of the series
/// (sorted by label set).
pub open spec fn counter_lines(name: Seq<char>, s: Seq<(LabelKey, nat)>) -> Seq<char>
    decreases s.len(),
{
    if s.len() == 0 {
        Seq::empty()
    } else {
        counter_lines(name, s.drop_last()) + name + "{"@ + labels_text(s.last().0) + "} "@ + dec(s.last().1) + "\n"@
    }
}

/// A labelled counter with its type line.
pub open spec fn counter_text(name: Seq<char>, s: Seq<(LabelKey, nat)>) -> Seq<char> {
    "# TYPE "@ + name + " counter\n"@ + counter_lines(name, s)
}

pub open spec fn duration_name() -> Seq<char> {
    "http_requests_duration_seconds"@
}

/// The bucket lines of the first `n` bounds of one series.
pub open spec fn bucket_lines(k: LabelKey, bounds: Seq<u64>, le: Seq<nat>, n: nat) -> Seq<char>
    decreases n,
{
    if n == 0 {
        Seq::empty()
    } else {
        bucket_lines(k, bounds, le, (n - 1) as nat) + duration_name() + "_bucket{"@ + labels_text(k) + ",le=\""@
            + secs_text(bounds[n - 1] as nat) + "\"} "@ + dec(le[n - 1]) + "\n"@
    }
}

/// All the lines of one series of the duration histogram: its buckets, the
/// `+Inf` bucket, the sum in seconds and the count.
pub open spec fn series_text(k: LabelKey, bounds: Seq<u64>, s: SeriesView) -> Seq<char> {
    bucket_lines(k, bounds, s.le, bounds.len()) + tail_lines(k, s)
}

/// The `+Inf` bucket, sum and count lines of one series.
pub open spec fn tail_lines(k: LabelKey, s: SeriesView) -> Seq<char> {
    duration_name() + "_bucket{"@ + labels_text(k) + ",le=\"+Inf\"} "@ + dec(s.count) + "\n"@
        + duration_name() + "_sum{"@ + labels_text(k) + "} "@ + secs_text(s.sum_ms) + "\n"@
        + duration_name() + "_count{"@ + labels_text(k) + "} "@ + dec(s.count) + "\n"@
}

/// The series of the duration histogram, in their order (sorted by label set).
pub open spec fn histogram_lines(bounds: Seq<u64>, s: Seq<(LabelKey, SeriesView)>) -> Seq<char>
    decreases s.len(),
{
    if s.len() == 0 {
        Seq::empty()
    } else {
        histogram_lines(bounds, s.drop_last()) + series_text(s.last().0, bounds, s.last().1)
    }
}

/// The exposition text of all the request metrics: metric names in
/// alphabetical order, each metric's series sorted by label set.
pub open spec fn render_text(m: RequestMetrics) -> Seq<char> {
    counter_text("http_requests_2xx_total"@, m.classified(StatusClass::Success).series())
        + counter_text("http_requests_4xx_total"@, m.classified(StatusClass::ClientError).series())
        + counter_text("http_requests_5xx_total"@, m.classified(StatusClass::ServerError).series())
        + "# TYPE "@ + duration_name() + " histogram\n"@
        + histogram_lines(duration_bounds(), m.duration().series())
        + "# TYPE http_requests_total counter\n"@
        + total_line(m.total())
}

/// The line of `http_requests_total` when it stands at `n`.
pub open spec fn total_line(n: nat) -> Seq<char> {
    "http_requests_total "@ + dec(n) + "\n"@
}

/// The exposition reflects the requests recorded so far: its last line
/// carries the current value of `http_requests_total`.
pub proof fn lemma_exposition_ends_with_total(m: RequestMetrics)
    ensures
        render_text(m).len() >= total_line(m.total()).len(),
        render_text(m).subrange(render_text(m).len() - total_line(m.total()).len(), render_text(m).len() as int)
            == total_line(m.total()),
{
    let t = total_line(m.total());
    let r = render_text(m);
    assert(r.subrange(r.len() - t.len(), r.len() as int) =~= t);
}

fn digit_str(d: u64) -> (r: &'static str)
    requires
        d < 10,
    ensures
        r@ == digit_text(d as nat),
{
    if d == 0 { "0" }
    else if d == 1 { "1" }
    else if d == 2 { "2" }
    else if d == 3 { "3" }
    else if d == 4 { "4" }
    else if d == 5 { "5" }
    else if d == 6 { "6" }
    else if d == 7 { "7" }
    else if d == 8 { "8" }
    else { "9" }
}

/// Appends `n` in decimal.
pub fn write_dec(out: &mut String, n: u64)
    ensures
        final(out)@ == old(out)@ + dec(n as nat),
    decreases n,
{
    reveal(dec);
    if n < 10 {
        out.append(digit_str(n));
    } else {
        write_dec(out, n / 10);
        out.append(digit_str(n % 10));
        assert(final(out)@ =~= old(out)@ + dec(n as nat));
    }
}

/// Appends `ms` milliseconds written in seconds.
pub fn write_secs(out: &mut String, ms: u64)
    ensures
        final(out)@ == old(out)@ + secs_text(ms as nat),
{
    reveal(secs_text);
    write_dec(out, ms / 1000);
    let f = ms % 1000;
    if f == 0 {
    } else if f % 100 == 0 {
        out.append(".");
        out.append(digit_str(f / 100));
    } else if f % 10 == 0 {
        out.append(".");
        out.append(digit_str(f / 100));
        out.append(digit_str((f / 10) % 10));
    } else {
        out.append(".");
        out.append(digit_str(f / 100));
        out.append(digit_str((f / 10) % 10));
        out.append(digit_str(f % 10));
    }
    assert(final(out)@ =~= old(out)@ + secs_text(ms as nat));
}

/// Appends the label value `v`, escaped.
pub fn write_escaped(out: &mut String, v: &String)
    ensures
        final(out)@ == old(out)@ + escape(v@),
{
    let n = v.as_str().unicode_len();
    let mut i: usize = 0;
    while i < n
        invariant
            n == v@.len(),
            i <= n,
            out@ == old(out)@ + escape(v@.take(i as int)),
        decreases n - i,
    {
        let c = v.as_str().get_char(i);
        if c == '\\' {
            out.append("\\\\");
        } else if c == '"' {
            out.append("\\\"");
        } else if c == '\n' {
            out.append("\\n");
        } else {
            let one = v.as_str().substring_char(i, i + 1);
            assert(one@ =~= seq![c]);
            out.append(one);
        }
        proof {
            let t = v@.take(i + 1);
            assert(t.drop_last() =~= v@.take(i as int));
            assert(t.last() == c);
        }
        i = i + 1;
    }
    assert(v@.take(i as int) =~= v@);
}

fn write_labels(out: &mut String, l: &LabelSet)
    ensures
        final(out)@ == old(out)@ + labels_text(l@),
{
    reveal(labels_text);
    out.append("path=\"");
    write_escaped(out, &l.path);
    out.append("\",method=\"");
    write_escaped(out, &l.method);
    out.append("\",status=\"");
    write_dec(out, l.status as u64);
    out.append("\"");
    assert(final(out)@ =~= old(out)@ + labels_text(l@));
}

fn write_counter(out: &mut String, name: &str, c: &LabeledCounter)
    ensures
        final(out)@ == old(out)@ + counter_text(name@, c.series()),
{
    out.append("# TYPE ");
    out.append(name);
    out.append(" counter\n");
    let ghost start = out@;
    let mut i: usize = 0;
    while i < c.len()
        invariant
            i <= c.series().len(),
            out@ == start + counter_lines(name@, c.series().take(i as int)),
        decreases c.series().len() - i,
    {
        let (l, v) = c.entry(i);
        out.append(name);
        out.append("{");
        write_labels(out, l);
        out.append("} ");
        write_dec(out, v);
        out.append("\n");
        proof {
            let s = c.series().take(i + 1);
            assert(s.drop_last() =~= c.series().take(i as int));
            assert(out@ =~= start + counter_lines(name@, s));
        }
        i = i + 1;
    }
    assert(c.series().take(i as int) =~= c.series());
    assert(final(out)@ =~= old(out)@ + counter_text(name@, c.series()));
}

/// Appends the histogram's name, `suffix` and the labels of `l`.
fn write_head(out: &mut String, suffix: &str, l: &LabelSet)
    ensures
        final(out)@ == old(out)@ + duration_name() + suffix@ + labels_text(l@),
{
    out.append("http_requests_duration_seconds");
    out.append(suffix);
    write_labels(out, l);
    assert(final(out)@ =~= old(out)@ + duration_name() + suffix@ + labels_text(l@));
}

fn write_buckets(out: &mut String, l: &LabelSet, bounds: &Vec<u64>, s: &HistogramSeries)
    requires
        s@.le.len() == bounds@.len(),
    ensures
        final(out)@ == old(out)@ + bucket_lines(l@, bounds@, s@.le, bounds@.len()),
{
    let mut b: usize = 0;
    while b < bounds.len()
        invariant
            b <= bounds@.len(),
            s@.le.len() == bounds@.len(),
            out@ == old(out)@ + bucket_lines(l@, bounds@, s@.le, b as nat),
        decreases bounds@.len() - b,
    {
        let ghost before = out@;
        write_head(out, "_bucket{", l);
        out.append(",le=\"");
        write_secs(out, bounds[b]);
        out.append("\"} ");
        assert(s@.le[b as int] == s.le@[b as int]);
        write_dec(out, s.le[b]);
        out.append("\n");
        assert(out@ =~= before + (duration_name() + "_bucket{"@ + labels_text(l@) + ",le=\""@
            + secs_text(bounds@[b as int] as nat) + "\"} "@ + dec(s@.le[b as int]) + "\n"@));
        assert(out@ =~= old(out)@ + bucket_lines(l@, bounds@, s@.le, (b + 1) as nat));
        b = b + 1;
    }
}

fn write_tail(out: &mut String, l: &LabelSet, s: &HistogramSeries)
    ensures
        final(out)@ == old(out)@ + tail_lines(l@, s@),
{
    write_head(out, "_bucket{", l);
    out.append(",le=\"+Inf\"} ");
    write_dec(out, s.count);
    out.append("\n");
    let ghost b = out@;
    write_head(out, "_sum{", l);
    out.append("} ");
    write_secs(out, s.sum_ms);
    out.append("\n");
    let ghost c = out@;
    write_head(out, "_count{", l);
    out.append("} ");
    write_dec(out, s.count);
    out.append("\n");
    assert(b =~= old(out)@ + (duration_name() + "_bucket{"@ + labels_text(l@) + ",le=\"+Inf\"} "@ + dec(s@.count) + "\n"@));
    assert(c =~= b + (duration_name() + "_sum{"@ + labels_text(l@) + "} "@ + secs_text(s@.sum_ms) + "\n"@));
    assert(out@ =~= c + (duration_name() + "_count{"@ + labels_text(l@) + "} "@ + dec(s@.count) + "\n"@));
    assert(final(out)@ =~= old(out)@ + tail_lines(l@, s@));
}

fn write_series(out: &mut String, l: &LabelSet, bounds: &Vec<u64>, s: &HistogramSeries)
    requires
        s@.le.len() == bounds@.len(),
    ensures
        final(out)@ == old(out)@ + series_text(l@, bounds@, s@),
{
    write_buckets(out, l, bounds, s);
    write_tail(out, l, s);
    assert(final(out)@ =~= old(out)@ + series_text(l@, bounds@, s@));
}

fn write_histogram(out: &mut String, h: &Histogram)
    requires
        h.wf(),
    ensures
        final(out)@ == old(out)@ + histogram_lines(h.bounds(), h.series()),
{
    let mut i: usize = 0;
    while i < h.len()
        invariant
            h.wf(),
            i <= h.series().len(),
            out@ == old(out)@ + histogram_lines(h.bounds(), h.series().take(i as int)),
        decreases h.series().len() - i,
    {
        let (l, s) = h.entry(i);
        write_series(out, l, h.bucket_bounds(), s);
        proof {
            let t = h.series().take(i + 1);
            assert(t.drop_last() =~= h.series().take(i as int));
            assert(out@ =~= old(out)@ + histogram_lines(h.bounds(), t));
        }
        i = i + 1;
    }
    assert(h.series().take(i as int) =~= h.series());
}

impl RequestMetrics {
    /// The metrics in the pull-based text exposition format.
    pub fn render(&self) -> (r: String)
        requires
            self.wf(),
        ensures
            r@ == render_text(*self),
    {
        let mut out = String::new();
        write_counter(&mut out, "http_requests_2xx_total", self.counter(StatusClass::Success).unwrap());
        write_counter(&mut out, "http_requests_4xx_total", self.counter(StatusClass::ClientError).unwrap());
        write_counter(&mut out, "http_requests_5xx_total", self.counter(StatusClass::ServerError).unwrap());
        out.append("# TYPE ");
        out.append("http_requests_duration_seconds");
        out.append(" histogram\n");
        write_histogram(&mut out, self.duration_histogram());
        out.append("# TYPE http_requests_total counter\n");
        let ghost before = out@;
        out.append("http_requests_total ");
        write_dec(&mut out, self.requests_total());
        out.append("\n");
        assert(out@ =~= before + total_line(self.total()));
        assert(out@ =~= render_text(*self));
        out
    }
}

} // verus!
