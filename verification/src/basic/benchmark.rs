//! Results of a basic run.

use vstd::prelude::*;

use crate::benchmark::{total, seq_avg};

verus! {

/// The outcome of one request, with its HTTP status code (0 when the request
/// got no response).
#[derive(Debug, Clone, Copy, PartialEq, Eq)]
pub struct BenchmarkResult {
    pub status: u16,
    pub duration: u64,
    pub execution: usize,
    pub num_client: usize,
}

/// The latencies of a sequence of results.
pub open spec fn durations(results: Seq<BenchmarkResult>) -> Seq<u64> {
    results.map_values(|r: BenchmarkResult| r.duration)
}

/// The mean latency of a non-empty collection.
pub trait Average {
    /// The latencies (ms) the mean is taken over.
    spec fn latencies(&self) -> Seq<u64>;

    /// Mean latency, floored.
    fn avg(&self) -> (a: u64)
        requires
            self.latencies().len() > 0,
            total(self.latencies()) <= u64::MAX,
        ensures
            a == seq_avg(self.latencies()),
    ;
}

impl Average for Vec<BenchmarkResult> {
    open spec fn latencies(&self) -> Seq<u64> {
        durations(self@)
    }

    fn avg(&self) -> (a: u64) {
        let mut sum: u64 = 0;
        let mut i: usize = 0;
        assert(durations(self@.take(0)) =~= Seq::<u64>::empty());
        while i < self.len()
            invariant
                i <= self.len(),
                total(durations(self@)) <= u64::MAX,
                sum == total(durations(self@.take(i as int))),
            decreases self.len() - i,
        {
            proof {
                assert(durations(self@.take(i + 1)).drop_last() =~= durations(self@.take(i as int)));
                crate::benchmark::lemma_total_prefix(durations(self@), i as int + 1);
                assert(durations(self@).take(i + 1) =~= durations(self@.take(i + 1)));
            }
            sum = sum + self[i].duration;
            i += 1;
        }
        assert(self@.take(i as int) =~= self@);
        sum / (self.len() as u64)
    }
}

/// The results of a basic run, in the order they arrived.
#[derive(Debug)]
pub struct Report {
    results: Vec<BenchmarkResult>,
}

impl View for Report {
    type V = Seq<BenchmarkResult>;

    closed spec fn view(&self) -> Seq<BenchmarkResult> {
        self.results@
    }
}

impl Report {
    pub fn new() -> (r: Report)
        ensures
            r@ == Seq::<BenchmarkResult>::empty(),
    {
        Report { results: Vec::new() }
    }

    pub fn add_result(&mut self, result: BenchmarkResult)
        ensures
            final(self)@ == old(self)@.push(result),
    {
        self.results.push(result);
    }
}

} // verus!
