//! Benchmark results and the statistics a report is built from.

use hdrhistogram::Histogram;
use tokio::time::Instant;

use vstd::prelude::*;

use crate::text::{chars_of, dec, push_dec, push_str, string_of};

verus! {

// ---------------------------------------------------------------------------
// Outside types
// ---------------------------------------------------------------------------

/// A latency histogram: an `hdrhistogram::Histogram<u64>` with 3
/// significant figures. Verus sees it only through the functions below.
#[verifier::external_body]
#[derive(Debug)]
pub struct LatencyHistogram {
    pub samples: Histogram<u64>,
}

#[verifier::external_type_specification]
#[verifier::external_body]
pub struct ExInstant(Instant);

/// The number of samples a histogram has recorded (its `total_count`).
pub uninterp spec fn histogram_total(h: LatencyHistogram) -> nat;

/// Whether a histogram grows its range to take any value it is given.
pub uninterp spec fn histogram_auto_resize(h: LatencyHistogram) -> bool;

impl LatencyHistogram {
    /// `Histogram::<u64>::new(3)`: an empty, auto-resizing histogram (the
    /// constructor refuses only more than 5 significant figures).
    #[verifier::external_body]
    fn create() -> (h: Option<LatencyHistogram>)
        ensures
            h is Some,
            h matches Some(h) ==> histogram_total(h) == 0 && histogram_auto_resize(h),
    {
        match Histogram::<u64>::new(3) {
            Ok(samples) => Some(LatencyHistogram { samples }),
            Err(_) => None,
        }
    }

    /// `Histogram::record(value)`: on success the sample count grows by one
    /// (saturating at `u64::MAX`), on failure it is unchanged; an auto-resizing
    /// histogram always succeeds and stays auto-resizing.
    #[verifier::external_body]
    pub(crate) fn record(&mut self, value: u64) -> (ok: bool)
        ensures
            histogram_auto_resize(*final(self)) == histogram_auto_resize(*old(self)),
            histogram_auto_resize(*old(self)) ==> ok,
            ok ==> histogram_total(*final(self)) == saturating_succ(histogram_total(*old(self))),
            !ok ==> histogram_total(*final(self)) == histogram_total(*old(self)),
    {
        self.samples.record(value).is_ok()
    }
}

/// `tokio::time::Instant::now()`: the current instant.
#[verifier::external_body]
fn instant_now() -> Instant {
    Instant::now()
}

/// `n + 1`, capped at `u64::MAX`.
pub open spec fn saturating_succ(n: nat) -> nat {
    if n + 1 > u64::MAX {
        u64::MAX as nat
    } else {
        n + 1
    }
}

/// `n`, capped at `u64::MAX`.
pub open spec fn saturating(n: nat) -> nat {
    if n > u64::MAX {
        u64::MAX as nat
    } else {
        n
    }
}

// ---------------------------------------------------------------------------
// BenchmarkResult
// ---------------------------------------------------------------------------

/// The outcome of one request.
#[derive(Debug, Clone)]
pub struct BenchmarkResult {
    pub status: String,
    pub duration: u64,
    /// Which worker produced this result.
    pub num_client: usize,
    /// Sequence number within the worker.
    pub execution: u32,
    /// Unix timestamp (ms) when the request started.
    pub timestamp_ms: u64,
}

// ---------------------------------------------------------------------------
// Metrics
// ---------------------------------------------------------------------------

/// The sum of a sequence of latencies.
pub open spec fn total(s: Seq<u64>) -> nat
    decreases s.len(),
{
    if s.len() == 0 {
        0
    } else {
        total(s.drop_last()) + (s.last() as nat)
    }
}

/// The largest latency, or 0 for none.
pub open spec fn seq_max(s: Seq<u64>) -> u64
    decreases s.len(),
{
    if s.len() == 0 {
        0
    } else {
        let m = seq_max(s.drop_last());
        if s.len() == 1 || s.last() > m {
            s.last()
        } else {
            m
        }
    }
}

/// The smallest latency, or 0 for none.
pub open spec fn seq_min(s: Seq<u64>) -> u64
    decreases s.len(),
{
    if s.len() == 0 {
        0
    } else {
        let m = seq_min(s.drop_last());
        if s.len() == 1 || s.last() < m {
            s.last()
        } else {
            m
        }
    }
}

/// The mean latency, floored, or 0 for none.
pub open spec fn seq_avg(s: Seq<u64>) -> nat {
    if s.len() == 0 {
        0
    } else {
        total(s) / s.len()
    }
}

/// Latency statistics over a collection of results.
pub trait Metrics {
    /// The latencies (ms) the statistics are taken over, in order.
    spec fn latencies(&self) -> Seq<u64>;

    /// Mean latency (floored), 0 when empty.
    fn avg(&self) -> (a: u64)
        requires
            total(self.latencies()) <= u64::MAX,
        ensures
            a == seq_avg(self.latencies()),
    ;

    /// Largest latency, 0 when empty.
    fn max(&self) -> (m: u64)
        ensures
            m == seq_max(self.latencies()),
    ;

    /// Smallest latency, 0 when empty.
    fn min(&self) -> (m: u64)
        ensures
            m == seq_min(self.latencies()),
    ;
}

/// The latencies of a sequence of results.
pub open spec fn durations(results: Seq<BenchmarkResult>) -> Seq<u64> {
    results.map_values(|r: BenchmarkResult| r.duration)
}

proof fn lemma_durations_take(results: Seq<BenchmarkResult>, i: int)
    requires
        0 <= i < results.len(),
    ensures
        durations(results.take(i + 1)).drop_last() == durations(results.take(i)),
        durations(results.take(i + 1)).last() == results[i].duration,
        durations(results.take(i + 1)).len() == i + 1,
{
    assert(durations(results.take(i + 1)).drop_last() =~= durations(results.take(i)));
}

impl Metrics for Vec<BenchmarkResult> {
    open spec fn latencies(&self) -> Seq<u64> {
        durations(self@)
    }

    fn avg(&self) -> (a: u64) {
        if self.len() == 0 {
            return 0;
        }
        let mut sum: u64 = 0;
        let mut i: usize = 0;
        assert(self@.take(0) =~= Seq::<BenchmarkResult>::empty());
        assert(durations(self@.take(0)) =~= Seq::<u64>::empty());
        while i < self.len()
            invariant
                i <= self.len(),
                total(durations(self@)) <= u64::MAX,
                sum == total(durations(self@.take(i as int))),
            decreases self.len() - i,
        {
            proof {
                lemma_durations_take(self@, i as int);
                lemma_total_prefix(durations(self@), i as int + 1);
                assert(durations(self@).take(i + 1) =~= durations(self@.take(i + 1)));
            }
            sum = sum + self[i].duration;
            i += 1;
        }
        assert(self@.take(i as int) =~= self@);
        sum / (self.len() as u64)
    }

    fn max(&self) -> (m: u64) {
        let mut m: u64 = 0;
        let mut i: usize = 0;
        assert(self@.take(0) =~= Seq::<BenchmarkResult>::empty());
        assert(durations(self@.take(0)) =~= Seq::<u64>::empty());
        while i < self.len()
            invariant
                i <= self.len(),
                m == seq_max(durations(self@.take(i as int))),
            decreases self.len() - i,
        {
            proof {
                lemma_durations_take(self@, i as int);
            }
            let d = self[i].duration;
            if i == 0 || d > m {
                m = d;
            }
            i += 1;
        }
        assert(self@.take(i as int) =~= self@);
        m
    }

    fn min(&self) -> (m: u64) {
        let mut m: u64 = 0;
        let mut i: usize = 0;
        assert(self@.take(0) =~= Seq::<BenchmarkResult>::empty());
        assert(durations(self@.take(0)) =~= Seq::<u64>::empty());
        while i < self.len()
            invariant
                i <= self.len(),
                m == seq_min(durations(self@.take(i as int))),
            decreases self.len() - i,
        {
            proof {
                lemma_durations_take(self@, i as int);
            }
            let d = self[i].duration;
            if i == 0 || d < m {
                m = d;
            }
            i += 1;
        }
        assert(self@.take(i as int) =~= self@);
        m
    }
}

/// A prefix never sums to more than the whole.
pub proof fn lemma_total_prefix(s: Seq<u64>, k: int)
    requires
        0 <= k <= s.len(),
    ensures
        total(s.take(k)) <= total(s),
    decreases s.len() - k,
{
    if k < s.len() {
        lemma_total_prefix(s, k + 1);
        assert(s.take(k + 1).drop_last() =~= s.take(k));
    } else {
        assert(s.take(k) =~= s);
    }
}

} // verus!

verus! {

// ---------------------------------------------------------------------------
// StatusBreakdown
// ---------------------------------------------------------------------------

/// Results counted by the class of their status.
#[derive(Debug, Clone, Copy, PartialEq, Eq)]
pub struct StatusBreakdown {
    pub success: usize,  // 2xx
    pub client_error: usize,  // 4xx
    pub server_error: usize,  // 5xx
    pub network_error: usize,  // timeouts, connection refused, etc.
    pub other: usize,  // 1xx, 3xx or any other code
}

impl Default for StatusBreakdown {
    fn default() -> (b: StatusBreakdown)
        ensures
            b == (StatusBreakdown {
                success: 0,
                client_error: 0,
                server_error: 0,
                network_error: 0,
                other: 0,
            }),
    {
        StatusBreakdown { success: 0, client_error: 0, server_error: 0, network_error: 0, other: 0 }
    }
}

/// The class of a status text, by its first character: `2` success, `4`
/// client error, `5` server error, any other decimal digit other (1xx, 3xx
/// or any other code); a status with no leading digit, as for a failed
/// connection, counts as a network error.
pub enum StatusClass {
    Success,
    ClientError,
    ServerError,
    Other,
    NetworkError,
}

pub open spec fn status_class(status: Seq<char>) -> StatusClass {
    if status.len() == 0 {
        StatusClass::NetworkError
    } else if status[0] == '2' {
        StatusClass::Success
    } else if status[0] == '4' {
        StatusClass::ClientError
    } else if status[0] == '5' {
        StatusClass::ServerError
    } else if '0' <= status[0] <= '9' {
        StatusClass::Other
    } else {
        StatusClass::NetworkError
    }
}

/// How many results have a status of the class `class`.
pub open spec fn count_class(results: Seq<BenchmarkResult>, class: StatusClass) -> nat
    decreases results.len(),
{
    if results.len() == 0 {
        0
    } else {
        count_class(results.drop_last(), class) + if status_class(results.last().status@)
            == class {
            1nat
        } else {
            0nat
        }
    }
}

/// The breakdown of a sequence of results.
pub open spec fn breakdown_of(results: Seq<BenchmarkResult>) -> StatusBreakdown {
    StatusBreakdown {
        success: count_class(results, StatusClass::Success) as usize,
        client_error: count_class(results, StatusClass::ClientError) as usize,
        server_error: count_class(results, StatusClass::ServerError) as usize,
        network_error: count_class(results, StatusClass::NetworkError) as usize,
        other: count_class(results, StatusClass::Other) as usize,
    }
}

/// The sum of the five counts of a breakdown.
pub open spec fn breakdown_total(b: StatusBreakdown) -> nat {
    (b.success + b.client_error + b.server_error + b.network_error + b.other) as nat
}

proof fn lemma_count_class_bound(results: Seq<BenchmarkResult>, class: StatusClass)
    ensures
        count_class(results, class) <= results.len(),
    decreases results.len(),
{
    if results.len() > 0 {
        lemma_count_class_bound(results.drop_last(), class);
    }
}

/// Every result falls in exactly one class: the counts add up to the number
/// of results.
pub proof fn law_breakdown_counts_every_result(results: Seq<BenchmarkResult>)
    ensures
        count_class(results, StatusClass::Success) + count_class(results, StatusClass::ClientError)
            + count_class(results, StatusClass::ServerError) + count_class(
            results,
            StatusClass::NetworkError,
        ) + count_class(results, StatusClass::Other) == results.len(),
    decreases results.len(),
{
    if results.len() > 0 {
        law_breakdown_counts_every_result(results.drop_last());
    }
}

fn classify(status: &String) -> (c: StatusClass)
    ensures
        c == status_class(status@),
{
    let v = chars_of(status.as_str());
    if v.len() == 0 {
        StatusClass::NetworkError
    } else if v[0] == '2' {
        StatusClass::Success
    } else if v[0] == '4' {
        StatusClass::ClientError
    } else if v[0] == '5' {
        StatusClass::ServerError
    } else if '0' <= v[0] && v[0] <= '9' {
        StatusClass::Other
    } else {
        StatusClass::NetworkError
    }
}

/// Counts results by status class.
pub fn breakdown(results: &Vec<BenchmarkResult>) -> (b: StatusBreakdown)
    ensures
        b == breakdown_of(results@),
        breakdown_total(b) == results.len(),
{
    let mut b = StatusBreakdown::default();
    let mut i: usize = 0;
    assert(results@.take(0) =~= Seq::<BenchmarkResult>::empty());
    while i < results.len()
        invariant
            i <= results.len(),
            b == breakdown_of(results@.take(i as int)),
        decreases results.len() - i,
    {
        let ghost pre = results@.take(i as int);
        let ghost post = results@.take(i + 1);
        assert(post.drop_last() =~= pre);
        proof {
            lemma_count_class_bound(pre, StatusClass::Success);
            lemma_count_class_bound(pre, StatusClass::ClientError);
            lemma_count_class_bound(pre, StatusClass::ServerError);
            lemma_count_class_bound(pre, StatusClass::NetworkError);
            lemma_count_class_bound(pre, StatusClass::Other);
        }
        match classify(&results[i].status) {
            StatusClass::Success => b.success = b.success + 1,
            StatusClass::ClientError => b.client_error = b.client_error + 1,
            StatusClass::ServerError => b.server_error = b.server_error + 1,
            StatusClass::Other => b.other = b.other + 1,
            StatusClass::NetworkError => b.network_error = b.network_error + 1,
        }
        i += 1;
    }
    assert(results@.take(i as int) =~= results@);
    proof {
        law_breakdown_counts_every_result(results@);
        lemma_count_class_bound(results@, StatusClass::Success);
        lemma_count_class_bound(results@, StatusClass::ClientError);
        lemma_count_class_bound(results@, StatusClass::ServerError);
        lemma_count_class_bound(results@, StatusClass::NetworkError);
        lemma_count_class_bound(results@, StatusClass::Other);
    }
    b
}

// ---------------------------------------------------------------------------
// Report
// ---------------------------------------------------------------------------

/// The results of a run, with a histogram of their latencies.
#[derive(Debug)]
pub struct Report {
    pub clients: u32,
    pub results: Vec<BenchmarkResult>,
    pub hist: LatencyHistogram,
    pub start: Instant,
}

impl Report {
    /// The histogram has recorded one sample per result and keeps accepting
    /// samples.
    pub open spec fn wf(&self) -> bool {
        &&& histogram_auto_resize(self.hist)
        &&& histogram_total(self.hist) == saturating(self.results@.len())
    }

    pub fn new(clients: u32) -> (r: Report)
        ensures
            r.clients == clients,
            r.results@ == Seq::<BenchmarkResult>::empty(),
            r.wf(),
    {
        let hist = LatencyHistogram::create();
        Report { clients, results: Vec::new(), hist: hist.unwrap(), start: instant_now() }
    }

    pub fn add_result(&mut self, result: BenchmarkResult)
        requires
            old(self).wf(),
        ensures
            final(self).wf(),
            final(self).results@ == old(self).results@.push(result),
            final(self).clients == old(self).clients,
            final(self).start == old(self).start,
    {
        let duration = result.duration;
        self.results.push(result);
        // An auto-resizing histogram records every value.
        let _ = self.hist.record(duration);
    }

    pub fn status_breakdown(&self) -> (b: StatusBreakdown)
        ensures
            b == breakdown_of(self.results@),
            breakdown_total(b) == self.results.len(),
    {
        breakdown(&self.results)
    }
}

/// Recording a result adds one sample to the histogram.
pub proof fn law_add_result_counts_one_sample(before: Report, after: Report, result: BenchmarkResult)
    requires
        before.wf(),
        after.wf(),
        after.results@ == before.results@.push(result),
        before.results@.len() < u64::MAX,
    ensures
        histogram_total(after.hist) == histogram_total(before.hist) + 1,
{
}

} // verus!

verus! {

/// The smallest and largest latency are latencies of the sequence, and bound
/// every other one.
pub proof fn law_extremes_bound_latencies(s: Seq<u64>)
    requires
        s.len() > 0,
    ensures
        exists|i: int| 0 <= i < s.len() && s[i] == seq_min(s),
        exists|i: int| 0 <= i < s.len() && s[i] == seq_max(s),
        forall|k: int| 0 <= k < s.len() ==> seq_min(s) <= #[trigger] s[k] <= seq_max(s),
    decreases s.len(),
{
    if s.len() > 1 {
        let p = s.drop_last();
        law_extremes_bound_latencies(p);
        let i = choose|i: int| 0 <= i < p.len() && p[i] == seq_min(p);
        let j = choose|j: int| 0 <= j < p.len() && p[j] == seq_max(p);
        assert(s[i] == p[i]);
        assert(s[j] == p[j]);
        assert(s[s.len() - 1] == s.last());
        assert forall|k: int| 0 <= k < s.len() implies seq_min(s) <= #[trigger] s[k] <= seq_max(s) by {
            if k < s.len() - 1 {
                assert(s[k] == p[k]);
            }
        }
    } else {
        assert(s[0] == s.last());
    }
}

proof fn lemma_total_between(s: Seq<u64>)
    requires
        s.len() > 0,
    ensures
        s.len() * seq_min(s) <= total(s) <= s.len() * seq_max(s),
    decreases s.len(),
{
    let p = s.drop_last();
    if s.len() > 1 {
        lemma_total_between(p);
        let n = p.len() as int;
        let lo = seq_min(s) as int;
        let hi = seq_max(s) as int;
        assert(lo <= seq_min(p) && seq_max(p) <= hi);
        assert(n * lo <= n * seq_min(p)) by (nonlinear_arith)
            requires
                lo <= seq_min(p),
                n >= 0,
        ;
        assert(n * seq_max(p) <= n * hi) by (nonlinear_arith)
            requires
                seq_max(p) <= hi,
                n >= 0,
        ;
        assert(lo <= s.last() <= hi);
        assert((n + 1) * lo == n * lo + lo) by (nonlinear_arith);
        assert((n + 1) * hi == n * hi + hi) by (nonlinear_arith);
        assert(total(s) == total(p) + s.last());
        assert(s.len() == n + 1);
    } else {
        assert(total(p) == 0);
        assert(total(s) == s.last());
        assert(seq_min(s) == s.last() && seq_max(s) == s.last());
        assert(1 * (s.last() as int) == s.last() as int);
    }
}

/// The mean lies between the smallest and the largest latency.
pub proof fn law_avg_between_min_and_max(s: Seq<u64>)
    requires
        s.len() > 0,
    ensures
        seq_min(s) <= seq_avg(s) <= seq_max(s),
{
    lemma_total_between(s);
    let n = s.len() as int;
    let t = total(s) as int;
    let lo = seq_min(s) as int;
    let hi = seq_max(s) as int;
    assert(lo <= t / n <= hi) by (nonlinear_arith)
        requires
            n > 0,
            n * lo <= t <= n * hi,
    {
        vstd::arithmetic::div_mod::lemma_div_is_ordered(n * lo, t, n);
        vstd::arithmetic::div_mod::lemma_div_is_ordered(t, n * hi, n);
        vstd::arithmetic::div_mod::lemma_div_multiples_vanish(lo, n);
        vstd::arithmetic::div_mod::lemma_div_multiples_vanish(hi, n);
    }
}

} // verus!

verus! {

// ---------------------------------------------------------------------------
// Latency histogram (text rendering data)
// ---------------------------------------------------------------------------

/// The width of each of `n` buckets spanning `[lo, hi]`: the range divided
/// by `n`, rounded up, and at least 1.
pub open spec fn bucket_width(lo: u64, hi: u64, n: nat) -> nat {
    let r = (hi - lo) as nat;
    let c = r / n + if r % n == 0 {
        0nat
    } else {
        1nat
    };
    if c == 0 {
        1
    } else {
        c
    }
}

/// The bucket a latency falls in; values past the last bucket go in the last.
pub open spec fn bucket_index(d: u64, lo: u64, width: nat, n: nat) -> nat {
    let i = ((d - lo) as nat) / width;
    if i < n - 1 {
        i
    } else {
        (n - 1) as nat
    }
}

/// How many latencies fall in bucket `i`.
pub open spec fn bucket_count(ds: Seq<u64>, lo: u64, width: nat, n: nat, i: nat) -> nat
    decreases ds.len(),
{
    if ds.len() == 0 {
        0
    } else {
        bucket_count(ds.drop_last(), lo, width, n, i) + if bucket_index(ds.last(), lo, width, n)
            == i {
            1nat
        } else {
            0nat
        }
    }
}

/// The label of bucket `i`: its upper bound in milliseconds.
pub open spec fn bucket_label(lo: u64, width: nat, i: nat) -> Seq<char> {
    dec((lo + (i + 1) * width) as nat) + "ms"@
}

/// `h` is the latency histogram of the latencies `ds` in `n` buckets: no
/// bucket for no latencies or no buckets asked for; a single bucket labelled
/// with the latency when all are equal; otherwise `n` buckets, each labelled
/// with its upper bound and holding the number of latencies that fall in it.
pub open spec fn histogram_buckets(h: Seq<(String, u64)>, ds: Seq<u64>, n: nat) -> bool {
    let lo = seq_min(ds);
    let hi = seq_max(ds);
    let w = bucket_width(lo, hi, n);
    if ds.len() == 0 || n == 0 {
        h.len() == 0
    } else if lo == hi {
        &&& h.len() == 1
        &&& h[0].0@ == dec(hi as nat) + "ms"@
        &&& h[0].1 == ds.len()
    } else {
        &&& h.len() == n
        &&& forall|i: int|
            0 <= i < n ==> {
                &&& (#[trigger] h[i]).0@ == bucket_label(lo, w, i as nat)
                &&& h[i].1 == bucket_count(ds, lo, w, n, i as nat)
            }
    }
}

/// The upper bound of the last bucket fits in a `u64`.
pub open spec fn histogram_fits(ds: Seq<u64>, n: nat) -> bool {
    ds.len() == 0 || n == 0 || seq_min(ds) == seq_max(ds) || seq_min(ds) + n * bucket_width(
        seq_min(ds),
        seq_max(ds),
        n,
    ) <= u64::MAX
}

/// The sum of the counts of a labelled histogram.
pub open spec fn pair_total(v: Seq<(String, u64)>) -> nat
    decreases v.len(),
{
    if v.len() == 0 {
        0
    } else {
        pair_total(v.drop_last()) + (v.last().1 as nat)
    }
}

/// The sum of the counts of buckets `0..k`.
pub open spec fn counts_total(ds: Seq<u64>, lo: u64, width: nat, n: nat, k: nat) -> nat
    decreases k,
{
    if k == 0 {
        0
    } else {
        counts_total(ds, lo, width, n, (k - 1) as nat) + bucket_count(ds, lo, width, n, (k - 1) as nat)
    }
}

proof fn lemma_bucket_count_bound(ds: Seq<u64>, lo: u64, width: nat, n: nat, i: nat)
    ensures
        bucket_count(ds, lo, width, n, i) <= ds.len(),
    decreases ds.len(),
{
    if ds.len() > 0 {
        lemma_bucket_count_bound(ds.drop_last(), lo, width, n, i);
    }
}

proof fn lemma_counts_total_step(ds: Seq<u64>, lo: u64, width: nat, n: nat, k: nat)
    requires
        ds.len() > 0,
    ensures
        counts_total(ds, lo, width, n, k) == counts_total(ds.drop_last(), lo, width, n, k) + if bucket_index(
            ds.last(),
            lo,
            width,
            n,
        ) < k {
            1nat
        } else {
            0nat
        },
    decreases k,
{
    if k > 0 {
        lemma_counts_total_step(ds, lo, width, n, (k - 1) as nat);
    }
}

proof fn lemma_counts_total_all(ds: Seq<u64>, lo: u64, width: nat, n: nat)
    requires
        n > 0,
        width > 0,
    ensures
        counts_total(ds, lo, width, n, n) == ds.len(),
    decreases ds.len(),
{
    if ds.len() == 0 {
        lemma_counts_total_zero(ds, lo, width, n, n);
    } else {
        lemma_counts_total_all(ds.drop_last(), lo, width, n);
        lemma_counts_total_step(ds, lo, width, n, n);
    }
}

proof fn lemma_counts_total_zero(ds: Seq<u64>, lo: u64, width: nat, n: nat, k: nat)
    requires
        ds.len() == 0,
    ensures
        counts_total(ds, lo, width, n, k) == 0,
    decreases k,
{
    if k > 0 {
        lemma_counts_total_zero(ds, lo, width, n, (k - 1) as nat);
    }
}

impl Report {
    /// Returns the data of an ASCII latency histogram across `n_buckets`
    /// buckets: each bucket labelled with its upper bound (ms) and the number
    /// of results in it. No buckets for no results or no buckets asked for;
    /// a single bucket when all latencies are equal.
    pub fn latency_histogram(&self, n_buckets: usize) -> (h: Vec<(String, u64)>)
        requires
            histogram_fits(durations(self.results@), n_buckets as nat),
        ensures
            histogram_buckets(h@, durations(self.results@), n_buckets as nat),
            n_buckets > 0 ==> pair_total(h@) == self.results@.len(),
    {
        let ghost ds = durations(self.results@);
        let mut out: Vec<(String, u64)> = Vec::new();
        if self.results.len() == 0 || n_buckets == 0 {
            return out;
        }
        let lo = self.results.min();
        let hi = self.results.max();
        proof {
            law_extremes_bound_latencies(ds);
        }
        if lo == hi {
            let mut label: Vec<char> = Vec::new();
            push_dec(&mut label, hi);
            push_str(&mut label, "ms");
            out.push((string_of(&label), self.results.len() as u64));
            assert(out@.drop_last() =~= Seq::<(String, u64)>::empty());
            assert(pair_total(Seq::<(String, u64)>::empty()) == 0);
            assert(pair_total(out@) == self.results.len());
            return out;
        }
        let range = hi - lo;
        let n = n_buckets as u64;
        let mut width: u64 = if range % n == 0 {
            range / n
        } else {
            assert(n >= 2);
            assert(range / n <= range / 2) by (nonlinear_arith)
                requires
                    n >= 2,
            {
                vstd::arithmetic::div_mod::lemma_div_is_ordered_by_denominator(range as int, 2, n as int);
            }
            range / n + 1
        };
        if width == 0 {
            width = 1;
        }
        let ghost w = bucket_width(lo, hi, n_buckets as nat);
        assert(width == w);
        // Count the results in each bucket.
        let mut counts: Vec<u64> = Vec::new();
        let mut j: usize = 0;
        while j < n_buckets
            invariant
                j <= n_buckets,
                counts@.len() == j,
                forall|t: int| 0 <= t < j ==> counts@[t] == 0,
            decreases n_buckets - j,
        {
            counts.push(0);
            j += 1;
        }
        let mut k: usize = 0;
        assert(self.results@.take(0) =~= Seq::<BenchmarkResult>::empty());
        assert(durations(self.results@.take(0)) =~= Seq::<u64>::empty());
        while k < self.results.len()
            invariant
                k <= self.results.len(),
                n_buckets > 0,
                width == w,
                w >= 1,
                ds == durations(self.results@),
                lo == seq_min(ds),
                forall|t: int| 0 <= t < ds.len() ==> lo <= #[trigger] ds[t],
                counts@.len() == n_buckets,
                forall|t: int|
                    0 <= t < n_buckets ==> #[trigger] counts@[t] == bucket_count(
                        durations(self.results@.take(k as int)),
                        lo,
                        w,
                        n_buckets as nat,
                        t as nat,
                    ),
            decreases self.results.len() - k,
        {
            let ghost pre = durations(self.results@.take(k as int));
            proof {
                lemma_durations_take(self.results@, k as int);
            }
            let d = self.results[k].duration;
            assert(ds[k as int] == d);
            let raw = (d - lo) / width;
            let idx: usize = if raw < (n_buckets - 1) as u64 {
                raw as usize
            } else {
                n_buckets - 1
            };
            assert(idx == bucket_index(d, lo, w, n_buckets as nat));
            proof {
                lemma_bucket_count_bound(pre, lo, w, n_buckets as nat, idx as nat);
            }
            let c = counts[idx];
            counts.set(idx, c + 1);
            k += 1;
        }
        assert(self.results@.take(k as int) =~= self.results@);
        // Label each bucket with its upper bound.
        let mut i: usize = 0;
        while i < n_buckets
            invariant
                i <= n_buckets,
                counts@.len() == n_buckets,
                width == w,
                w >= 1,
                lo + n_buckets * w <= u64::MAX,
                forall|t: int|
                    0 <= t < n_buckets ==> #[trigger] counts@[t] == bucket_count(
                        ds,
                        lo,
                        w,
                        n_buckets as nat,
                        t as nat,
                    ),
                out@.len() == i,
                forall|t: int|
                    0 <= t < i ==> {
                        &&& (#[trigger] out@[t]).0@ == bucket_label(lo, w, t as nat)
                        &&& out@[t].1 == bucket_count(ds, lo, w, n_buckets as nat, t as nat)
                    },
                pair_total(out@) == counts_total(ds, lo, w, n_buckets as nat, i as nat),
            decreases n_buckets - i,
        {
            assert((i + 1) * w <= n_buckets * w) by (nonlinear_arith)
                requires
                    i + 1 <= n_buckets,
                    w >= 1,
            ;
            let upper = lo + (i as u64 + 1) * width;
            let mut label: Vec<char> = Vec::new();
            push_dec(&mut label, upper);
            push_str(&mut label, "ms");
            let ghost before = out@;
            out.push((string_of(&label), counts[i]));
            assert(out@.drop_last() =~= before);
            i += 1;
        }
        proof {
            lemma_counts_total_all(ds, lo, w, n_buckets as nat);
        }
        out
    }
}

} // verus!

verus! {

// ---------------------------------------------------------------------------
// Per-request log
// ---------------------------------------------------------------------------

/// The header line of the per-request CSV log.
pub open spec fn log_header() -> Seq<char> {
    "timestamp_ms,num_client,execution,status,latency_ms\n"@
}

/// One CSV line of the per-request log: `timestamp_ms,num_client,execution,status,latency_ms`.
pub open spec fn log_line(r: BenchmarkResult) -> Seq<char> {
    dec(r.timestamp_ms as nat) + ","@ + dec(r.num_client as nat) + ","@ + dec(r.execution as nat)
        + ","@ + r.status@ + ","@ + dec(r.duration as nat) + "\n"@
}

/// The lines of the per-request log, one per result, in order.
pub open spec fn log_lines(rs: Seq<BenchmarkResult>) -> Seq<char>
    decreases rs.len(),
{
    if rs.len() == 0 {
        seq![]
    } else {
        log_lines(rs.drop_last()) + log_line(rs.last())
    }
}

/// The per-request CSV log of a report: a header line, then one line per result.
pub fn results_log_text(report: &Report) -> (text: String)
    ensures
        text@ == log_header() + log_lines(report.results@),
{
    let mut v: Vec<char> = Vec::new();
    push_str(&mut v, "timestamp_ms,num_client,execution,status,latency_ms\n");
    let ghost head = v@;
    let mut i: usize = 0;
    assert(report.results@.take(0) =~= Seq::<BenchmarkResult>::empty());
    assert(v@ =~= head + log_lines(report.results@.take(0)));
    while i < report.results.len()
        invariant
            i <= report.results.len(),
            head == log_header(),
            v@ == head + log_lines(report.results@.take(i as int)),
        decreases report.results.len() - i,
    {
        let r = &report.results[i];
        let ghost before = v@;
        push_dec(&mut v, r.timestamp_ms);
        push_str(&mut v, ",");
        push_dec(&mut v, r.num_client as u64);
        push_str(&mut v, ",");
        push_dec(&mut v, r.execution as u64);
        push_str(&mut v, ",");
        push_str(&mut v, r.status.as_str());
        push_str(&mut v, ",");
        push_dec(&mut v, r.duration);
        push_str(&mut v, "\n");
        assert(report.results@.take(i + 1).drop_last() =~= report.results@.take(i as int));
        assert(v@ =~= before + log_line(*r));
        i += 1;
    }
    assert(report.results@.take(i as int) =~= report.results@);
    string_of(&v)
}

} // verus!

verus! {

// ---------------------------------------------------------------------------
// Text report pieces
// ---------------------------------------------------------------------------

/// One line of the status-code section: an indented label and a count.
pub open spec fn count_line(label: Seq<char>, n: usize) -> Seq<char> {
    "  "@ + label + "  "@ + dec(n as nat)
}

/// An entry when its count is above zero, none otherwise.
pub open spec fn entry_if_any(label: Seq<char>, n: usize) -> Seq<(Seq<char>, usize)> {
    if n > 0 {
        seq![(label, n)]
    } else {
        seq![]
    }
}

/// The status-code section of the text report, as labels and counts: the
/// 2xx count always, each other class only when it occurred.
pub open spec fn status_entries_of(bd: StatusBreakdown) -> Seq<(Seq<char>, usize)> {
    seq![("2xx"@, bd.success)] + entry_if_any("4xx"@, bd.client_error) + entry_if_any(
        "5xx"@,
        bd.server_error,
    ) + entry_if_any("other"@, bd.other) + entry_if_any("network errors"@, bd.network_error)
}

/// The texts of a list of strings.
pub open spec fn texts(v: Seq<String>) -> Seq<Seq<char>> {
    v.map_values(|s: String| s@)
}

/// Labels and counts, with the labels as text.
pub open spec fn entry_texts(v: Seq<(String, usize)>) -> Seq<(Seq<char>, usize)> {
    v.map_values(|e: (String, usize)| (e.0@, e.1))
}

fn push_entry(entries: &mut Vec<(String, usize)>, label: &str, n: usize)
    ensures
        entry_texts(final(entries)@) == entry_texts(old(entries)@).push((label@, n)),
{
    let ghost before = entries@;
    entries.push((string_of(&chars_of(label)), n));
    assert(entry_texts(entries@) =~= entry_texts(before).push((label@, n)));
}

/// The labels and counts of the status-code section of the text report.
pub fn status_entries(bd: &StatusBreakdown) -> (entries: Vec<(String, usize)>)
    ensures
        entry_texts(entries@) == status_entries_of(*bd),
{
    let mut entries: Vec<(String, usize)> = Vec::new();
    assert(entry_texts(entries@) =~= seq![]);
    push_entry(&mut entries, "2xx", bd.success);
    let ghost s1 = entry_texts(entries@);
    if bd.client_error > 0 {
        push_entry(&mut entries, "4xx", bd.client_error);
    }
    assert(entry_texts(entries@) =~= s1 + entry_if_any("4xx"@, bd.client_error));
    let ghost s2 = entry_texts(entries@);
    if bd.server_error > 0 {
        push_entry(&mut entries, "5xx", bd.server_error);
    }
    assert(entry_texts(entries@) =~= s2 + entry_if_any("5xx"@, bd.server_error));
    let ghost s3 = entry_texts(entries@);
    if bd.other > 0 {
        push_entry(&mut entries, "other", bd.other);
    }
    assert(entry_texts(entries@) =~= s3 + entry_if_any("other"@, bd.other));
    let ghost s4 = entry_texts(entries@);
    if bd.network_error > 0 {
        push_entry(&mut entries, "network errors", bd.network_error);
    }
    assert(entry_texts(entries@) =~= s4 + entry_if_any("network errors"@, bd.network_error));
    entries
}

/// The lines of the status-code section of the text report.
pub fn status_lines(bd: &StatusBreakdown) -> (lines: Vec<String>)
    ensures
        texts(lines@) == status_entries_of(*bd).map_values(
            |e: (Seq<char>, usize)| count_line(e.0, e.1),
        ),
{
    let entries = status_entries(bd);
    let mut lines: Vec<String> = Vec::new();
    let mut i: usize = 0;
    while i < entries.len()
        invariant
            i <= entries.len(),
            texts(lines@) == entry_texts(entries@).take(i as int).map_values(
                |e: (Seq<char>, usize)| count_line(e.0, e.1),
            ),
        decreases entries.len() - i,
    {
        let mut v: Vec<char> = Vec::new();
        push_str(&mut v, "  ");
        push_str(&mut v, entries[i].0.as_str());
        push_str(&mut v, "  ");
        push_dec(&mut v, entries[i].1 as u64);
        let ghost before = lines@;
        let ghost e = entry_texts(entries@)[i as int];
        assert(e == (entries@[i as int].0@, entries@[i as int].1));
        assert(v@ == count_line(e.0, e.1));
        lines.push(string_of(&v));
        assert(texts(lines@) =~= texts(before).push(count_line(e.0, e.1)));
        assert(entry_texts(entries@).take(i + 1) =~= entry_texts(entries@).take(i as int).push(e));
        assert(texts(lines@) =~= entry_texts(entries@).take(i + 1).map_values(
            |e: (Seq<char>, usize)| count_line(e.0, e.1),
        ));
        i += 1;
    }
    assert(entry_texts(entries@).take(entries.len() as int) =~= entry_texts(entries@));
    lines
}

/// `n` spaces.
pub open spec fn spaces(n: nat) -> Seq<char> {
    Seq::new(n, |i: int| ' ')
}

/// A text padded with spaces on the right to `width` characters, as
/// `{:<width}` formats it; a longer text is left as it is.
pub open spec fn pad_right_of(s: Seq<char>, width: nat) -> Seq<char> {
    if s.len() >= width {
        s
    } else {
        s + spaces((width - s.len()) as nat)
    }
}

/// A text padded with spaces on the left to `width` characters, as
/// `{:>width}` formats it; a longer text is left as it is.
pub open spec fn pad_left_of(s: Seq<char>, width: nat) -> Seq<char> {
    if s.len() >= width {
        s
    } else {
        spaces((width - s.len()) as nat) + s
    }
}

fn push_spaces(v: &mut Vec<char>, n: usize)
    ensures
        final(v)@ == old(v)@ + spaces(n as nat),
{
    let ghost start = v@;
    let mut i: usize = 0;
    while i < n
        invariant
            i <= n,
            v@ == start + spaces(i as nat),
        decreases n - i,
    {
        v.push(' ');
        i += 1;
        assert(v@ =~= start + spaces(i as nat));
    }
}

/// Pads a text with spaces on the right to `width` characters.
pub fn pad_right(s: &str, width: usize) -> (r: String)
    ensures
        r@ == pad_right_of(s@, width as nat),
{
    let mut v = chars_of(s);
    let len = v.len();
    if len < width {
        push_spaces(&mut v, width - len);
    }
    string_of(&v)
}

/// Pads a text with spaces on the left to `width` characters.
pub fn pad_left(s: &str, width: usize) -> (r: String)
    ensures
        r@ == pad_left_of(s@, width as nat),
{
    let text = chars_of(s);
    let mut v: Vec<char> = Vec::new();
    if text.len() < width {
        push_spaces(&mut v, width - text.len());
    }
    push_str(&mut v, s);
    string_of(&v)
}

/// One row of the text report: the label padded to 20 characters, a space,
/// and the value.
pub fn text_row(label: &str, value: &str) -> (r: String)
    ensures
        r@ == pad_right_of(label@, 20) + " "@ + value@,
{
    let mut v = chars_of(pad_right(label, 20).as_str());
    push_str(&mut v, " ");
    push_str(&mut v, value);
    string_of(&v)
}

} // verus!

verus! {

fn width_of(lo: u64, hi: u64, n_buckets: usize) -> (w: u64)
    requires
        lo < hi,
        n_buckets > 0,
    ensures
        w == bucket_width(lo, hi, n_buckets as nat),
{
    let range = hi - lo;
    let n = n_buckets as u64;
    let width: u64 = if range % n == 0 {
        range / n
    } else {
        assert(n >= 2);
        assert(range / n <= range / 2) by (nonlinear_arith)
            requires
                n >= 2,
        {
            vstd::arithmetic::div_mod::lemma_div_is_ordered_by_denominator(range as int, 2, n as int);
        }
        range / n + 1
    };
    if width == 0 {
        1
    } else {
        width
    }
}

impl Report {
    /// The latency histogram of `latency_histogram`, or `None` when the
    /// upper bound of its last bucket would not fit in a `u64`.
    pub fn checked_latency_histogram(&self, n_buckets: usize) -> (h: Option<Vec<(String, u64)>>)
        ensures
            h is Some <==> histogram_fits(durations(self.results@), n_buckets as nat),
            h matches Some(v) ==> histogram_buckets(v@, durations(self.results@), n_buckets as nat)
                && (n_buckets > 0 ==> pair_total(v@) == self.results@.len()),
    {
        if self.results.len() == 0 || n_buckets == 0 {
            return Some(self.latency_histogram(n_buckets));
        }
        let lo = self.results.min();
        let hi = self.results.max();
        if lo == hi {
            return Some(self.latency_histogram(n_buckets));
        }
        proof {
            law_extremes_bound_latencies(durations(self.results@));
        }
        let width = width_of(lo, hi, n_buckets);
        let nb: u128 = n_buckets as u128;
        let wd: u128 = width as u128;
        assert(nb * wd <= 0xFFFF_FFFF_FFFF_FFFFu128 * 0xFFFF_FFFF_FFFF_FFFFu128) by (nonlinear_arith)
            requires
                nb <= 0xFFFF_FFFF_FFFF_FFFFu128,
                wd <= 0xFFFF_FFFF_FFFF_FFFFu128,
        ;
        let last: u128 = lo as u128 + nb * wd;
        if last <= u64::MAX as u128 {
            Some(self.latency_histogram(n_buckets))
        } else {
            None
        }
    }
}

} // verus!

verus! {

proof fn lemma_width_covers_range(lo: u64, hi: u64, n: nat)
    requires
        lo < hi,
        n > 0,
    ensures
        bucket_width(lo, hi, n) >= 1,
        (hi - lo) <= n * bucket_width(lo, hi, n),
{
    let r = (hi - lo) as nat;
    let w = bucket_width(lo, hi, n);
    let c = r / n + if r % n == 0 { 0nat } else { 1nat };
    vstd::arithmetic::div_mod::lemma_fundamental_div_mod(r as int, n as int);
    vstd::arithmetic::div_mod::lemma_mod_bound(r as int, n as int);
    let q = r / n;
    if r % n == 0 {
        assert(n * c >= r) by (nonlinear_arith)
            requires
                r == n * q + r % n,
                r % n == 0,
                c == q,
        ;
    } else {
        let m = r % n;
        assert(n * (q + 1) == n * q + n) by (nonlinear_arith);
        assert(n * c >= r) by (nonlinear_arith)
            requires
                r == n * q + m,
                m < n,
                c == q + 1,
                n * (q + 1) == n * q + n,
        ;
    }
    assert(n * w >= n * c) by (nonlinear_arith)
        requires
            w >= c,
    ;
}

/// Where a latency goes in a histogram of `n` buckets of width `w` over
/// `[lo, hi]`: a bucket that exists, starting at or below the latency, and
/// ending above it, or at it for the last bucket, which reaches past `hi`.
pub proof fn law_bucket_holds_its_latency(lo: u64, hi: u64, n: nat, d: u64)
    requires
        lo < hi,
        n > 0,
        lo <= d <= hi,
    ensures
        ({
            let w = bucket_width(lo, hi, n);
            let i = bucket_index(d, lo, w, n);
            &&& i < n
            &&& lo + i * w <= d
            &&& d <= lo + (i + 1) * w
            &&& (d == lo + (i + 1) * w ==> i == n - 1)
            &&& hi <= lo + n * w
        }),
{
    let w = bucket_width(lo, hi, n);
    lemma_width_covers_range(lo, hi, n);
    let x = (d - lo) as nat;
    let q = x / w;
    vstd::arithmetic::div_mod::lemma_fundamental_div_mod(x as int, w as int);
    vstd::arithmetic::div_mod::lemma_mod_bound(x as int, w as int);
    let i = bucket_index(d, lo, w, n);
    assert(q * w <= x < (q + 1) * w) by (nonlinear_arith)
        requires
            x == w * q + x % w,
            0 <= x % w < w,
    ;
    if q < n - 1 {
        assert(i == q);
    } else {
        assert(i == n - 1);
        assert(i * w <= q * w) by (nonlinear_arith)
            requires
                i <= q,
        ;
        assert(x <= n * w);
        assert((i + 1) * w == n * w) by (nonlinear_arith)
            requires
                i + 1 == n,
        ;
    }
}

/// Bucket placement keeps the order of latencies: a longer latency never
/// goes in an earlier bucket.
pub proof fn law_bucket_order(lo: u64, hi: u64, n: nat, d1: u64, d2: u64)
    requires
        lo < hi,
        n > 0,
        lo <= d1 <= d2 <= hi,
    ensures
        bucket_index(d1, lo, bucket_width(lo, hi, n), n) <= bucket_index(
            d2,
            lo,
            bucket_width(lo, hi, n),
            n,
        ),
{
    let w = bucket_width(lo, hi, n);
    lemma_width_covers_range(lo, hi, n);
    vstd::arithmetic::div_mod::lemma_div_is_ordered((d1 - lo) as int, (d2 - lo) as int, w as int);
}

} // verus!
