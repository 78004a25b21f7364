use zkbench::errors::HarnessError;
use zkbench::mode::BenchMode;
use zkbench::mode::CreateMode;
use zkbench::service::SimService;

#[test]
fn error_classification() {
    assert!(HarnessError::NoNodeError.is_benign_delete());
    assert!(!HarnessError::ConnectionError.is_benign_delete());
    assert!(!HarnessError::NodeExistsError.is_benign_delete());
    assert!(!HarnessError::VersionMismatchError.is_benign_delete());
    assert!(!HarnessError::OperationError.is_benign_delete());
    assert!(!HarnessError::NoNodeError.is_fatal());
    assert!(HarnessError::ConnectionError.is_fatal());
    assert!(HarnessError::OperationError.is_fatal());
}

#[test]
fn mode_properties() {
    assert!(CreateMode::PersistentSequential.is_sequential());
    assert!(CreateMode::EphemeralSequential.is_sequential());
    assert!(!CreateMode::Persistent.is_sequential());
    assert!(!CreateMode::Ephemeral.is_sequential());
    assert!(CreateMode::Ephemeral.is_ephemeral());
    assert!(CreateMode::EphemeralSequential.is_ephemeral());
    assert!(!CreateMode::Persistent.is_ephemeral());
    assert!(!CreateMode::PersistentSequential.is_ephemeral());

    assert_eq!(BenchMode::Ephemeral.create_mode(), CreateMode::Ephemeral);
    assert_eq!(BenchMode::EphemeralSequential.create_mode(), CreateMode::EphemeralSequential);
    assert_eq!(BenchMode::PersistentSequential.create_mode(), CreateMode::PersistentSequential);
    // client-side counting exactly when the service assigns no suffix
    assert!(BenchMode::Ephemeral.client_counted());
    assert!(!BenchMode::EphemeralSequential.client_counted());
    assert!(!BenchMode::PersistentSequential.client_counted());
}

#[test]
fn root_lifecycle() {
    let mut svc = SimService::new();
    assert_eq!(svc.exists_root(), None);
    assert_eq!(svc.count_children(), Err(HarnessError::NoNodeError));
    assert_eq!(svc.create_root(), Ok(()));
    assert_eq!(svc.exists_root(), Some(0));
    assert_eq!(svc.count_children(), Ok(0));
    // a second create of the same path collides
    assert_eq!(svc.create_root(), Err(HarnessError::NodeExistsError));
    // a guarded delete with a stale version fails loudly
    assert_eq!(svc.delete_root(7), Err(HarnessError::VersionMismatchError));
    assert_eq!(svc.delete_root(0), Ok(()));
    // deleting what is already gone is the benign cleanup case
    let gone = svc.delete_root(0);
    assert_eq!(gone, Err(HarnessError::NoNodeError));
    assert!(gone.unwrap_err().is_benign_delete());
}

#[test]
fn create_child_needs_root() {
    let mut svc = SimService::new();
    assert_eq!(
        svc.create_child(1, CreateMode::Ephemeral, 0),
        Err(HarnessError::NoNodeError)
    );
}

#[test]
fn sequential_creates_take_service_suffixes() {
    let mut svc = SimService::new();
    assert_eq!(svc.create_root(), Ok(()));
    // the requested suffix is ignored; the sequencer assigns 0, 1, 2
    assert_eq!(svc.create_child(1, CreateMode::EphemeralSequential, 99), Ok(0));
    assert_eq!(svc.create_child(2, CreateMode::EphemeralSequential, 99), Ok(1));
    assert_eq!(svc.create_child(1, CreateMode::PersistentSequential, 99), Ok(2));
    assert_eq!(svc.count_children(), Ok(3));
}

#[test]
fn plain_creates_collide_on_reused_suffix() {
    let mut svc = SimService::new();
    assert_eq!(svc.create_root(), Ok(()));
    assert_eq!(svc.create_child(1, CreateMode::Ephemeral, 5), Ok(5));
    assert_eq!(
        svc.create_child(2, CreateMode::Ephemeral, 5),
        Err(HarnessError::NodeExistsError)
    );
    assert_eq!(svc.create_child(2, CreateMode::Ephemeral, 6), Ok(6));
    assert_eq!(svc.count_children(), Ok(2));
}

#[test]
fn close_session_drops_only_its_ephemerals() {
    let mut svc = SimService::new();
    assert_eq!(svc.create_root(), Ok(()));
    assert_eq!(svc.create_child(1, CreateMode::Ephemeral, 10), Ok(10));
    assert_eq!(svc.create_child(2, CreateMode::Ephemeral, 20), Ok(20));
    assert_eq!(svc.create_child(1, CreateMode::Persistent, 30), Ok(30));
    assert_eq!(svc.create_child(1, CreateMode::Ephemeral, 40), Ok(40));
    assert_eq!(svc.count_children(), Ok(4));
    svc.close_session(1);
    // session 1's two ephemerals vanish; its persistent node and session
    // 2's ephemeral stay, in order
    assert_eq!(svc.count_children(), Ok(2));
    assert_eq!(svc.children[0].suffix, 20);
    assert_eq!(svc.children[1].suffix, 30);
}

#[test]
fn list_child_names_renders_in_order() {
    let mut svc = SimService::new();
    assert_eq!(svc.create_root(), Ok(()));
    assert_eq!(svc.create_child(1, CreateMode::PersistentSequential, 0), Ok(0));
    assert_eq!(svc.create_child(1, CreateMode::PersistentSequential, 0), Ok(1));
    let names = svc.list_child_names().unwrap();
    assert_eq!(names, vec![b"node_0".to_vec(), b"node_1".to_vec()]);
}
