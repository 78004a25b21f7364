use vstd::prelude::*;

verus! {

/// Final measurement of one run: the live child count under the root and
/// the throughput it implies. Throughput is kept in hundredths of
/// operations per second (the resolution it is reported at), so the
/// arithmetic stays in integers.
#[derive(Clone, Copy, Debug, PartialEq, Eq, Structural)]
pub struct BenchmarkResult {
    pub count: u64,
    pub duration_secs: u64,
    pub throughput_centiops: u64,
}

/// `count / duration` in hundredths of operations per second, rounded
/// toward zero.
pub open spec fn spec_throughput_centiops(count: nat, duration_secs: nat) -> nat
    recommends
        duration_secs >= 1,
{
    (count * 100) / duration_secs
}

/// Aggregates one run: the count read after all workers stopped, over the
/// configured duration. Zero creates give exactly zero throughput.
pub fn compute_result(count: u64, duration_secs: u64) -> (r: BenchmarkResult)
    requires
        duration_secs >= 1,
        count <= u64::MAX / 100,
    ensures
        r.count == count,
        r.duration_secs == duration_secs,
        r.throughput_centiops == spec_throughput_centiops(count as nat, duration_secs as nat),
        count == 0 ==> r.throughput_centiops == 0,
{
    BenchmarkResult { count, duration_secs, throughput_centiops: (count * 100) / duration_secs }
}

} // verus!
