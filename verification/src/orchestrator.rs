use vstd::prelude::*;
use vstd::arithmetic::div_mod::lemma_fundamental_div_mod_converse;
use vstd::arithmetic::mul::lemma_mul_inequality;
use vstd::arithmetic::mul::lemma_mul_is_distributive_add_other_way;
use crate::errors::HarnessError;
use crate::metrics::BenchmarkResult;
use crate::metrics::compute_result;
use crate::metrics::spec_throughput_centiops;
use crate::mode::BenchMode;
use crate::names::NameAllocator;
use crate::service::ChildEntry;
use crate::service::SimService;
use crate::service::has_suffix;
use crate::service::lemma_remove_session_membership;
use crate::service::lemma_close_session_excludes;
use crate::service::remove_session;
use crate::worker::run_worker_sim;
use crate::worker::worker_entries;

verus! {

/// Ceiling on `workers * duration`, the total creates a simulated run can
/// issue: keeps every count within both the address space and the
/// throughput arithmetic.
pub const MAX_TOTAL_CREATES: u64 = 0xFFFF_FFFF;

/// One run's configuration: how many workers, for how long, in which mode.
#[derive(Clone, Copy, Debug, PartialEq, Eq, Structural)]
pub struct Config {
    pub workers: u64,
    pub duration_secs: u64,
    pub mode: BenchMode,
}

impl Config {
    /// A runnable configuration: a positive measurement window, and a
    /// total create budget within machine bounds.
    pub open spec fn valid(self) -> bool {
        &&& self.duration_secs >= 1
        &&& self.workers * self.duration_secs <= MAX_TOTAL_CREATES
    }

    pub fn is_valid(&self) -> (r: bool)
        ensures
            r == self.valid(),
    {
        if self.duration_secs < 1 {
            return false;
        }
        match self.workers.checked_mul(self.duration_secs) {
            Some(total) => total <= MAX_TOTAL_CREATES,
            None => false,
        }
    }
}

/// Prepares the namespace root: if a stale root is left from an earlier
/// run, delete it guarded by the version just read, then create it
/// afresh. From any prior state a single sequential invocation succeeds —
/// never a `VersionMismatchError` — and leaves an existing, empty root;
/// so does running it twice in a row.
pub fn setup_root(svc: &mut SimService) -> (r: Result<(), HarnessError>)
    requires
        old(svc).wf(),
    ensures
        match r {
            Ok(()) => {
                &&& final(svc).root_exists
                &&& final(svc).root_version == 0
                &&& final(svc).children@.len() == 0
                &&& final(svc).next_seq == 0
                &&& final(svc).wf()
            },
            Err(_) => false,
        },
{
    match svc.exists_root() {
        Some(version) => {
            match svc.delete_root(version) {
                Ok(()) => {},
                Err(e) => {
                    // deleting a node that is already gone is benign
                    if e.is_fatal() {
                        return Err(e);
                    }
                },
            }
        },
        None => {},
    }
    match svc.create_root() {
        Ok(()) => Ok(()),
        Err(e) => Err(e),
    }
}

/// The child list a full run leaves behind: `workers * duration` entries
/// in creation order, the suffix of each equal to its creation index,
/// created by worker `index / duration`, in the configured mode.
pub open spec fn expected_children(workers: nat, duration: nat, mode: BenchMode) -> Seq<
    ChildEntry,
> {
    Seq::new(
        workers * duration,
        |i: int|
            ChildEntry {
                suffix: i as u64,
                owner: (i / duration as int) as u64,
                ephemeral: mode.spec_is_ephemeral(),
                sequential: mode.spec_is_sequential(),
            },
    )
}

/// The whole protocol, against the model service and a logical clock
/// where each create costs one tick: prepare the root, compute one shared
/// deadline before any worker starts, run every worker to it, then count
/// and compute throughput. Worker `w` runs under its own session `w`;
/// those sessions all stay open here, so ephemeral children are still
/// live when counted — `close_worker_sessions` tears them down afterward.
/// A valid configuration never fails; no workers means a count of zero
/// and a throughput of zero.
pub fn run_benchmark(svc: &mut SimService, cfg: Config) -> (r: Result<
    BenchmarkResult,
    HarnessError,
>)
    requires
        old(svc).wf(),
        cfg.valid(),
    ensures
        match r {
            Ok(res) => {
                &&& res.count == cfg.workers * cfg.duration_secs
                &&& res.duration_secs == cfg.duration_secs
                &&& res.throughput_centiops == spec_throughput_centiops(
                    res.count as nat,
                    cfg.duration_secs as nat,
                )
                &&& (cfg.workers == 0 ==> res.count == 0 && res.throughput_centiops == 0)
                &&& final(svc).root_exists
                &&& final(svc).wf()
                &&& final(svc).children@ == expected_children(
                    cfg.workers as nat,
                    cfg.duration_secs as nat,
                    cfg.mode,
                )
            },
            Err(_) => false,
        },
{
    match setup_root(svc) {
        Ok(()) => {},
        Err(e) => {
            return Err(e);
        },
    }
    // one absolute deadline for every worker, fixed before spawning
    let deadline: u64 = cfg.duration_secs;
    let mut counter = NameAllocator::new();
    let mut w: u64 = 0;
    proof {
        assert(svc.children@ =~= expected_children(0nat, cfg.duration_secs as nat, cfg.mode));
    }
    while w < cfg.workers
        invariant
            cfg.valid(),
            deadline == cfg.duration_secs,
            0 <= w <= cfg.workers,
            svc.wf(),
            svc.root_exists,
            svc.children@ == expected_children(w as nat, cfg.duration_secs as nat, cfg.mode),
            svc.children@.len() == w * cfg.duration_secs,
            counter.next == if cfg.mode.spec_client_counted() {
                w * cfg.duration_secs
            } else {
                0
            },
            svc.next_seq == if cfg.mode.spec_client_counted() {
                0
            } else {
                w * cfg.duration_secs
            },
        decreases cfg.workers - w,
    {
        proof {
            lemma_mul_is_distributive_add_other_way(cfg.duration_secs as int, w as int, 1);
            lemma_mul_inequality(w + 1, cfg.workers as int, cfg.duration_secs as int);
            assert((w + 1) * cfg.duration_secs <= MAX_TOTAL_CREATES);
            assert forall|i: int|
                0 <= i < svc.children@.len() implies (#[trigger] svc.children@[i]).suffix
                < counter.next || !cfg.mode.spec_client_counted() by {}
            assert forall|i: int|
                0 <= i < svc.children@.len() implies (#[trigger] svc.children@[i]).sequential
                || cfg.mode.spec_client_counted() by {}
        }
        let ghost pre_len: nat = svc.children@.len();
        let res = run_worker_sim(svc, &mut counter, w, cfg.mode, 0, deadline);
        match res {
            Ok(_) => {},
            Err(e) => {
                return Err(e);
            },
        }
        proof {
            let d = cfg.duration_secs as int;
            assert(svc.children@ =~= expected_children(
                (w + 1) as nat,
                cfg.duration_secs as nat,
                cfg.mode,
            )) by {
                lemma_mul_is_distributive_add_other_way(d, w as int, 1);
                assert forall|i: int|
                    0 <= i < (w + 1) * d implies svc.children@[i] == expected_children(
                    (w + 1) as nat,
                    cfg.duration_secs as nat,
                    cfg.mode,
                )[i] by {
                    if i < pre_len {
                        assert(svc.children@[i] == expected_children(
                            w as nat,
                            cfg.duration_secs as nat,
                            cfg.mode,
                        )[i]);
                    } else {
                        let k = i - pre_len;
                        assert(svc.children@[i] == worker_entries(
                            (pre_len) as u64,
                            cfg.duration_secs as nat,
                            w,
                            cfg.mode,
                        )[k]);
                        lemma_fundamental_div_mod_converse(i, d, w as int, k);
                    }
                }
            }
        }
        w = w + 1;
    }
    // the model commits creates synchronously; the real harness inserts a
    // settle delay here before counting
    let count: u64 = match svc.count_children() {
        Ok(n) => n,
        Err(e) => {
            return Err(e);
        },
    };
    proof {
        lemma_mul_inequality(cfg.workers as int, cfg.workers as int, cfg.duration_secs as int);
    }
    Ok(compute_result(count, cfg.duration_secs))
}

/// A run under an arbitrary interleaving of workers. Real workers race:
/// the order of their creates is decided by the scheduler, not the
/// harness. `schedule` lists, in global time order, which session issues
/// each create; every interleaving of the real run appears here as some
/// schedule. Whatever that order, no create ever collides — the shared
/// fetch-and-increment counter (or the service's sequencer) hands each
/// create the next free suffix — so the run succeeds, and afterwards the
/// suffix of each child equals its global creation index and its owner is
/// the scheduled session.
pub fn run_schedule_sim(
    svc: &mut SimService,
    counter: &mut NameAllocator,
    schedule: &Vec<u64>,
    mode: BenchMode,
) -> (r: Result<(), HarnessError>)
    requires
        old(svc).wf(),
        old(svc).root_exists,
        old(svc).children@.len() == 0,
        old(svc).next_seq == 0,
        old(counter).next == 0,
        schedule@.len() <= MAX_TOTAL_CREATES,
    ensures
        match r {
            Ok(()) => {
                &&& final(svc).root_exists
                &&& final(svc).wf()
                &&& final(svc).children@.len() == schedule@.len()
                &&& forall|i: int|
                    0 <= i < schedule@.len() ==> #[trigger] final(svc).children@[i] == (ChildEntry {
                        suffix: i as u64,
                        owner: schedule@[i],
                        ephemeral: mode.spec_is_ephemeral(),
                        sequential: mode.spec_is_sequential(),
                    })
            },
            Err(_) => false,
        },
{
    let client_counted: bool = mode.client_counted();
    let n: usize = schedule.len();
    let mut i: usize = 0;
    while i < n
        invariant
            n == schedule@.len(),
            n <= MAX_TOTAL_CREATES,
            0 <= i <= n,
            client_counted == mode.spec_client_counted(),
            svc.wf(),
            svc.root_exists,
            svc.children@.len() == i,
            counter.next == if client_counted {
                i as int
            } else {
                0
            },
            svc.next_seq == if client_counted {
                0
            } else {
                i as int
            },
            forall|j: int|
                0 <= j < i ==> #[trigger] svc.children@[j] == (ChildEntry {
                    suffix: j as u64,
                    owner: schedule@[j],
                    ephemeral: mode.spec_is_ephemeral(),
                    sequential: mode.spec_is_sequential(),
                }),
        decreases n - i,
    {
        let session: u64 = schedule[i];
        let sfx: u64 = if client_counted {
            counter.next_suffix()
        } else {
            0
        };
        proof {
            let cur = if client_counted {
                (counter.next - 1) as u64
            } else {
                svc.next_seq
            };
            if has_suffix(svc.children@, cur) {
                let w = choose|w: int|
                    0 <= w < svc.children@.len() && svc.children@[w].suffix == cur;
                assert(svc.children@[w].suffix < i);
            }
        }
        let res = svc.create_child(session, mode.create_mode(), sfx);
        match res {
            Ok(_) => {},
            Err(e) => {
                return Err(e);
            },
        }
        i = i + 1;
    }
    Ok(())
}

/// The children left once sessions `0 .. count` have all been closed, in
/// that order.
pub open spec fn remove_all_sessions(cs: Seq<ChildEntry>, count: u64) -> Seq<ChildEntry>
    decreases count,
{
    if count == 0 {
        cs
    } else {
        remove_session(remove_all_sessions(cs, (count - 1) as u64), (count - 1) as u64)
    }
}

/// After the count is read, the orchestrator closes every per-worker
/// session — the "sessions pending close" of an ephemeral-mode run. The
/// service then deletes their ephemeral nodes; counting after this call
/// would miss them, which is why it stands apart from the run itself.
pub fn close_worker_sessions(svc: &mut SimService, workers: u64)
    ensures
        final(svc).root_exists == old(svc).root_exists,
        final(svc).root_version == old(svc).root_version,
        final(svc).next_seq == old(svc).next_seq,
        final(svc).children@ == remove_all_sessions(old(svc).children@, workers),
        old(svc).wf() ==> final(svc).wf(),
{
    let mut sid: u64 = 0;
    while sid < workers
        invariant
            0 <= sid <= workers,
            svc.root_exists == old(svc).root_exists,
            svc.root_version == old(svc).root_version,
            svc.next_seq == old(svc).next_seq,
            svc.children@ == remove_all_sessions(old(svc).children@, sid),
            old(svc).wf() ==> svc.wf(),
        decreases workers - sid,
    {
        svc.close_session(sid);
        sid = sid + 1;
    }
}

/// Once every owning session below `count` is closed, no ephemeral child
/// of any of them survives: whatever remains is persistent or owned by a
/// session still open.
pub proof fn lemma_close_all_excludes(cs: Seq<ChildEntry>, count: u64)
    ensures
        forall|k: int|
            0 <= k < remove_all_sessions(cs, count).len() ==> ((#[trigger] remove_all_sessions(
                cs,
                count,
            )[k]).ephemeral ==> remove_all_sessions(cs, count)[k].owner >= count),
    decreases count,
{
    if count > 0 {
        let prev_count = (count - 1) as u64;
        lemma_close_all_excludes(cs, prev_count);
        let prev = remove_all_sessions(cs, prev_count);
        lemma_close_session_excludes(prev, prev_count);
        lemma_remove_session_membership(prev, prev_count);
        assert forall|k: int|
            0 <= k < remove_all_sessions(cs, count).len() && (#[trigger] remove_all_sessions(
                cs,
                count,
            )[k]).ephemeral implies remove_all_sessions(cs, count)[k].owner >= count by {
            let e = remove_all_sessions(cs, count)[k];
            assert(prev.contains(e));
            let j = choose|j: int| 0 <= j < prev.len() && prev[j] == e;
            assert(prev[j].ephemeral ==> prev[j].owner >= prev_count);
        }
    }
}

} // verus!
