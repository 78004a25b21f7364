use zkbench::mode::BenchMode;
use zkbench::mode::CreateMode;
use zkbench::names::NameAllocator;
use zkbench::names::node_name;
use zkbench::orchestrator::Config;
use zkbench::orchestrator::close_worker_sessions;
use zkbench::orchestrator::run_benchmark;
use zkbench::orchestrator::run_schedule_sim;
use zkbench::orchestrator::setup_root;
use zkbench::service::SimService;
use zkbench::worker::WorkerAction;
use zkbench::worker::WorkerState;
use zkbench::worker::run_worker_sim;
use zkbench::worker::worker_decide;
use zkbench::worker::worker_lifecycle_step;

#[test]
fn worker_decisions() {
    assert_eq!(worker_decide(0, 10, false), WorkerAction::CreateNode);
    assert_eq!(worker_decide(9, 10, false), WorkerAction::CreateNode);
    assert_eq!(worker_decide(10, 10, false), WorkerAction::Finish);
    assert_eq!(worker_decide(11, 10, false), WorkerAction::Finish);
    assert_eq!(worker_decide(0, 10, true), WorkerAction::Abort);
}

#[test]
fn worker_lifecycle() {
    assert_eq!(
        worker_lifecycle_step(WorkerState::Idle, WorkerAction::CreateNode),
        WorkerState::Running
    );
    assert_eq!(
        worker_lifecycle_step(WorkerState::Running, WorkerAction::CreateNode),
        WorkerState::Running
    );
    assert_eq!(
        worker_lifecycle_step(WorkerState::Running, WorkerAction::Finish),
        WorkerState::Stopped
    );
    assert_eq!(
        worker_lifecycle_step(WorkerState::Running, WorkerAction::Abort),
        WorkerState::Stopped
    );
    assert_eq!(
        worker_lifecycle_step(WorkerState::Stopped, WorkerAction::Finish),
        WorkerState::Stopped
    );
}

#[test]
fn worker_runs_exactly_to_deadline() {
    let mut svc = SimService::new();
    assert_eq!(svc.create_root(), Ok(()));
    let mut counter = NameAllocator::new();
    let ops = run_worker_sim(&mut svc, &mut counter, 0, BenchMode::Ephemeral, 0, 5).unwrap();
    // one create per tick, strictly before the deadline, none after
    assert_eq!(ops, 5);
    assert_eq!(svc.count_children(), Ok(5));
    let later = run_worker_sim(&mut svc, &mut counter, 0, BenchMode::Ephemeral, 5, 5).unwrap();
    assert_eq!(later, 0);
    assert_eq!(svc.count_children(), Ok(5));
}

#[test]
fn setup_twice_leaves_empty_root() {
    let mut svc = SimService::new();
    // simulate a stale leftover root from an earlier run
    assert_eq!(svc.create_root(), Ok(()));
    assert_eq!(svc.create_child(1, CreateMode::Persistent, 3), Ok(3));
    assert_eq!(svc.count_children(), Ok(1));
    // first setup replaces it with a fresh empty root
    assert_eq!(setup_root(&mut svc), Ok(()));
    assert_eq!(svc.count_children(), Ok(0));
    assert_eq!(svc.exists_root(), Some(0));
    // a second sequential setup also succeeds, never a version mismatch
    assert_eq!(setup_root(&mut svc), Ok(()));
    assert_eq!(svc.count_children(), Ok(0));
    assert_eq!(svc.exists_root(), Some(0));
}

#[test]
fn scenario_ephemeral_sequential_ten_workers() {
    let mut svc = SimService::new();
    let cfg = Config { workers: 10, duration_secs: 2, mode: BenchMode::EphemeralSequential };
    assert!(cfg.is_valid());
    let res = run_benchmark(&mut svc, cfg).unwrap();
    // ten workers, two ticks each: a positive count, throughput = count / 2
    assert_eq!(res.count, 20);
    assert!(res.count > 0);
    assert_eq!(res.throughput_centiops, res.count * 100 / 2);
    assert_eq!(res.throughput_centiops, 1000);
    // listChildren returns exactly `count` distinct names node_<sequence>
    let names = svc.list_child_names().unwrap();
    assert_eq!(names.len(), 20);
    for (i, name) in names.iter().enumerate() {
        assert_eq!(*name, node_name(i as u64));
    }
    let mut sorted = names.clone();
    sorted.sort();
    sorted.dedup();
    assert_eq!(sorted.len(), 20);
}

#[test]
fn scenario_no_workers() {
    let mut svc = SimService::new();
    let cfg = Config { workers: 0, duration_secs: 5, mode: BenchMode::PersistentSequential };
    assert!(cfg.is_valid());
    let res = run_benchmark(&mut svc, cfg).unwrap();
    assert_eq!(res.count, 0);
    assert_eq!(res.throughput_centiops, 0);
}

#[test]
fn ephemeral_nodes_vanish_with_their_sessions() {
    let mut svc = SimService::new();
    let cfg = Config { workers: 2, duration_secs: 3, mode: BenchMode::Ephemeral };
    let res = run_benchmark(&mut svc, cfg).unwrap();
    // counted while every owning session is still open
    assert_eq!(res.count, 6);
    // closing one owning session drops exactly its nodes from the count
    svc.close_session(0);
    assert_eq!(svc.count_children(), Ok(3));
    for entry in svc.children.iter() {
        assert!(entry.owner != 0);
    }
    // after every session is closed, nothing ephemeral is left to count
    close_worker_sessions(&mut svc, cfg.workers);
    assert_eq!(svc.count_children(), Ok(0));
}

#[test]
fn persistent_nodes_survive_session_close() {
    let mut svc = SimService::new();
    let cfg = Config { workers: 2, duration_secs: 2, mode: BenchMode::PersistentSequential };
    let res = run_benchmark(&mut svc, cfg).unwrap();
    assert_eq!(res.count, 4);
    close_worker_sessions(&mut svc, cfg.workers);
    assert_eq!(svc.count_children(), Ok(4));
}

#[test]
fn sequential_suffixes_strictly_increase() {
    let mut svc = SimService::new();
    let cfg = Config { workers: 3, duration_secs: 4, mode: BenchMode::PersistentSequential };
    let res = run_benchmark(&mut svc, cfg).unwrap();
    assert_eq!(res.count, 12);
    // strictly increasing in creation order, with no allocator gaps
    for (i, entry) in svc.children.iter().enumerate() {
        assert!(entry.sequential);
        assert_eq!(entry.suffix, i as u64);
        if i > 0 {
            assert!(svc.children[i - 1].suffix < entry.suffix);
        }
    }
}

#[test]
fn interleaved_workers_never_collide() {
    let mut svc = SimService::new();
    assert_eq!(setup_root(&mut svc), Ok(()));
    let mut counter = NameAllocator::new();
    // an adversarial interleaving of three racing workers
    let schedule: Vec<u64> = vec![0, 2, 1, 1, 0, 2, 2, 0, 1, 0];
    let res = run_schedule_sim(&mut svc, &mut counter, &schedule, BenchMode::Ephemeral);
    assert_eq!(res, Ok(()));
    assert_eq!(svc.count_children(), Ok(10));
    let names = svc.list_child_names().unwrap();
    let mut sorted = names.clone();
    sorted.sort();
    sorted.dedup();
    assert_eq!(sorted.len(), 10);
    for (i, entry) in svc.children.iter().enumerate() {
        assert_eq!(entry.suffix, i as u64);
        assert_eq!(entry.owner, schedule[i]);
        assert!(entry.ephemeral);
    }
}

#[test]
fn invalid_configurations_are_rejected() {
    let zero_duration = Config { workers: 1, duration_secs: 0, mode: BenchMode::Ephemeral };
    assert!(!zero_duration.is_valid());
    let too_many = Config {
        workers: u64::MAX,
        duration_secs: u64::MAX,
        mode: BenchMode::Ephemeral,
    };
    assert!(!too_many.is_valid());
    let ok = Config { workers: 1500, duration_secs: 10, mode: BenchMode::EphemeralSequential };
    assert!(ok.is_valid());
}
