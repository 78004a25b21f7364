use vstd::prelude::*;

verus! {

/// Node-creation modes offered by the coordination service. An ephemeral
/// node is deleted by the service when its owning session closes; a
/// sequential node gets a service-assigned, monotonically increasing
/// numeric suffix appended to its name.
#[derive(Clone, Copy, Debug, PartialEq, Eq, Structural)]
pub enum CreateMode {
    Persistent,
    PersistentSequential,
    Ephemeral,
    EphemeralSequential,
}

impl CreateMode {
    /// Whether the service appends a monotonically increasing suffix.
    pub open spec fn spec_is_sequential(self) -> bool {
        self == CreateMode::PersistentSequential || self == CreateMode::EphemeralSequential
    }

    /// Whether the node's lifetime is bound to its owning session.
    pub open spec fn spec_is_ephemeral(self) -> bool {
        self == CreateMode::Ephemeral || self == CreateMode::EphemeralSequential
    }

    pub fn is_sequential(&self) -> (r: bool)
        ensures
            r == self.spec_is_sequential(),
    {
        matches!(self, CreateMode::PersistentSequential | CreateMode::EphemeralSequential)
    }

    pub fn is_ephemeral(&self) -> (r: bool)
        ensures
            r == self.spec_is_ephemeral(),
    {
        matches!(self, CreateMode::Ephemeral | CreateMode::EphemeralSequential)
    }
}

/// Benchmark modes selectable by configuration: which creation mode the
/// workers use, and with it which uniqueness strategy the name allocator
/// must follow.
#[derive(Clone, Copy, Debug, PartialEq, Eq, Structural)]
pub enum BenchMode {
    Ephemeral,
    EphemeralSequential,
    PersistentSequential,
}

impl BenchMode {
    /// The creation mode every worker passes to the service.
    pub open spec fn spec_create_mode(self) -> CreateMode {
        match self {
            BenchMode::Ephemeral => CreateMode::Ephemeral,
            BenchMode::EphemeralSequential => CreateMode::EphemeralSequential,
            BenchMode::PersistentSequential => CreateMode::PersistentSequential,
        }
    }

    pub open spec fn spec_is_sequential(self) -> bool {
        self.spec_create_mode().spec_is_sequential()
    }

    pub open spec fn spec_is_ephemeral(self) -> bool {
        self.spec_create_mode().spec_is_ephemeral()
    }

    /// Whether the allocator must build client-side unique suffixes. The
    /// strategy has to match the creation mode: a non-sequential mode gets
    /// no disambiguation from the service, so the client must count; a
    /// sequential mode delegates uniqueness to the service.
    pub open spec fn spec_client_counted(self) -> bool {
        !self.spec_create_mode().spec_is_sequential()
    }

    pub fn create_mode(&self) -> (r: CreateMode)
        ensures
            r == self.spec_create_mode(),
    {
        match self {
            BenchMode::Ephemeral => CreateMode::Ephemeral,
            BenchMode::EphemeralSequential => CreateMode::EphemeralSequential,
            BenchMode::PersistentSequential => CreateMode::PersistentSequential,
        }
    }

    pub fn client_counted(&self) -> (r: bool)
        ensures
            r == self.spec_client_counted(),
    {
        !self.create_mode().is_sequential()
    }
}

} // verus!
