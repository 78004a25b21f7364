use vstd::prelude::*;
use crate::errors::HarnessError;
use crate::mode::BenchMode;
use crate::names::NameAllocator;
use crate::service::ChildEntry;
use crate::service::SimService;
use crate::service::has_suffix;

verus! {

/// Lifecycle of one worker: spawned idle, looping while running, stopped
/// once it finishes or aborts.
#[derive(Clone, Copy, Debug, PartialEq, Eq, Structural)]
pub enum WorkerState {
    Idle,
    Running,
    Stopped,
}

/// What a running worker does next.
#[derive(Clone, Copy, Debug, PartialEq, Eq, Structural)]
pub enum WorkerAction {
    /// Issue one more create.
    CreateNode,
    /// The deadline has passed: stop cleanly.
    Finish,
    /// The last create failed: stop and propagate the error, no retry.
    Abort,
}

/// The decision a running worker takes before each create: keep creating
/// strictly before the shared deadline, finish at or past it, and abort
/// at once if the last create failed — a failure signals a misconfigured
/// run and must surface, not be masked by retries.
pub fn worker_decide(now: u64, deadline: u64, last_create_failed: bool) -> (r: WorkerAction)
    ensures
        r == WorkerAction::Abort <==> last_create_failed,
        r == WorkerAction::CreateNode <==> (!last_create_failed && now < deadline),
        r == WorkerAction::Finish <==> (!last_create_failed && now >= deadline),
{
    if last_create_failed {
        WorkerAction::Abort
    } else if now < deadline {
        WorkerAction::CreateNode
    } else {
        WorkerAction::Finish
    }
}

/// The lifecycle transition each decision implies: an idle worker starts
/// running when spawned; a running worker stays in its loop while it
/// creates and stops on `Finish` or `Abort`; a stopped worker stays
/// stopped.
pub fn worker_lifecycle_step(state: WorkerState, action: WorkerAction) -> (r: WorkerState)
    ensures
        state == WorkerState::Idle ==> r == WorkerState::Running,
        state == WorkerState::Running && action == WorkerAction::CreateNode ==> r
            == WorkerState::Running,
        state == WorkerState::Running && action != WorkerAction::CreateNode ==> r
            == WorkerState::Stopped,
        state == WorkerState::Stopped ==> r == WorkerState::Stopped,
{
    match state {
        WorkerState::Idle => WorkerState::Running,
        WorkerState::Running => match action {
            WorkerAction::CreateNode => WorkerState::Running,
            _ => WorkerState::Stopped,
        },
        WorkerState::Stopped => WorkerState::Stopped,
    }
}

/// The entries one worker appends when it runs from `start` to `deadline`
/// on the model: one per tick, suffixes counting up from `base`.
pub open spec fn worker_entries(
    base: u64,
    ops: nat,
    session: u64,
    mode: BenchMode,
) -> Seq<ChildEntry> {
    Seq::new(
        ops,
        |k: int|
            ChildEntry {
                suffix: (base + k) as u64,
                owner: session,
                ephemeral: mode.spec_is_ephemeral(),
                sequential: mode.spec_is_sequential(),
            },
    )
}

/// One worker's whole run against the model service, on a logical clock
/// where each create costs one tick: it creates strictly before
/// `deadline` and stops exactly at it, so it performs `deadline - start`
/// creates. Suffixes come from the shared client counter in
/// client-counted modes and from the service's sequencer otherwise; in a
/// state where that source dominates every existing suffix, no create
/// ever collides and the worker never fails.
pub fn run_worker_sim(
    svc: &mut SimService,
    counter: &mut NameAllocator,
    session: u64,
    mode: BenchMode,
    start: u64,
    deadline: u64,
) -> (r: Result<u64, HarnessError>)
    requires
        start <= deadline,
        old(svc).wf(),
        old(svc).root_exists,
        mode.spec_client_counted() ==> forall|i: int|
            0 <= i < old(svc).children@.len() ==> (#[trigger] old(svc).children@[i]).suffix < old(
                counter,
            ).next,
        !mode.spec_client_counted() ==> forall|i: int|
            0 <= i < old(svc).children@.len() ==> (#[trigger] old(svc).children@[i]).sequential,
        old(counter).next + (deadline - start) <= u64::MAX,
        old(svc).next_seq + (deadline - start) <= u64::MAX,
    ensures
        match r {
            Ok(ops) => {
                &&& ops == deadline - start
                &&& final(svc).root_exists
                &&& final(svc).wf()
                &&& final(svc).root_version == old(svc).root_version
                &&& final(svc).children@ == old(svc).children@ + worker_entries(
                    if mode.spec_client_counted() {
                        old(counter).next
                    } else {
                        old(svc).next_seq
                    },
                    ops as nat,
                    session,
                    mode,
                )
                &&& final(counter).next == if mode.spec_client_counted() {
                    old(counter).next + ops
                } else {
                    old(counter).next as int
                }
                &&& final(svc).next_seq == if mode.spec_client_counted() {
                    old(svc).next_seq as int
                } else {
                    old(svc).next_seq + ops
                }
                &&& mode.spec_client_counted() ==> forall|i: int|
                    0 <= i < final(svc).children@.len()
                        ==> (#[trigger] final(svc).children@[i]).suffix < final(counter).next
                &&& !mode.spec_client_counted() ==> forall|i: int|
                    0 <= i < final(svc).children@.len()
                        ==> (#[trigger] final(svc).children@[i]).sequential
            },
            Err(_) => false,
        },
{
    let client_counted: bool = mode.client_counted();
    let base: u64 = if client_counted {
        counter.next
    } else {
        svc.next_seq
    };
    let mut now: u64 = start;
    let mut ops: u64 = 0;
    proof {
        assert(svc.children@ + worker_entries(base, 0nat, session, mode) =~= svc.children@);
    }
    while now < deadline
        invariant
            start <= now <= deadline,
            ops == now - start,
            client_counted == mode.spec_client_counted(),
            base == if client_counted {
                old(counter).next as int
            } else {
                old(svc).next_seq as int
            },
            svc.wf(),
            svc.root_exists,
            svc.root_version == old(svc).root_version,
            svc.children@ == old(svc).children@ + worker_entries(base, ops as nat, session, mode),
            counter.next == if client_counted {
                old(counter).next + ops
            } else {
                old(counter).next as int
            },
            svc.next_seq == if client_counted {
                old(svc).next_seq as int
            } else {
                old(svc).next_seq + ops
            },
            old(counter).next + (deadline - start) <= u64::MAX,
            old(svc).next_seq + (deadline - start) <= u64::MAX,
            client_counted ==> forall|i: int|
                0 <= i < svc.children@.len() ==> (#[trigger] svc.children@[i]).suffix
                    < counter.next,
            !client_counted ==> forall|i: int|
                0 <= i < svc.children@.len() ==> (#[trigger] svc.children@[i]).sequential,
        decreases deadline - now,
    {
        let sfx: u64 = if client_counted {
            counter.next_suffix()
        } else {
            0
        };
        proof {
            let cur = if client_counted {
                (counter.next - 1) as u64
            } else {
                svc.next_seq
            };
            if has_suffix(svc.children@, cur) {
                let w = choose|w: int|
                    0 <= w < svc.children@.len() && svc.children@[w].suffix == cur;
                assert(svc.children@[w].suffix < cur);
            }
        }
        let res = svc.create_child(session, mode.create_mode(), sfx);
        match res {
            Ok(_) => {},
            Err(e) => {
                return Err(e);
            },
        }
        proof {
            assert(svc.children@ =~= old(svc).children@ + worker_entries(
                base,
                (ops + 1) as nat,
                session,
                mode,
            ));
        }
        now = now + 1;
        ops = ops + 1;
    }
    Ok(ops)
}

} // verus!
