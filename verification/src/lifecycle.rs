//! Node start-up and shutdown rules.
//!
//! Only one node may serve a data directory at a time.  A lock sentinel
//! records the running node's RPC port: starting creates it, a clean
//! shutdown removes it, and a second start while one is running fails
//! without touching it — so the running node keeps its claim.

use vstd::prelude::*;

verus! {

/// Whether to stop the node after running a command or run forever until
/// stopped.
#[derive(Debug, Copy, Clone, Eq, PartialEq, Structural)]
pub enum RunType {
    /// Run a single command, then shut the node down; abort on interrupt.
    SingleCommandAbortable,
    /// Run a single command, then shut the node down; interrupts are
    /// handled by the command itself.
    SingleCommandNoAbort,
    /// Run until stopped from outside.
    UntilStopped,
}

/// A node is already serving this data directory, on the given RPC port.
#[derive(Debug, Copy, Clone, Eq, PartialEq, Structural)]
pub struct AlreadyRunningError(pub u16);

impl AlreadyRunningError {
    /// The RPC port of the node that is already running.
    pub fn port(&self) -> (r: u16)
        ensures
            r == self.0,
    {
        self.0
    }
}

/// What the RPC lock sentinel says.
#[derive(Debug, Copy, Clone, Eq, PartialEq, Structural)]
pub enum RpcStatus {
    /// No node is running: the sentinel is absent.
    Stopped,
    /// A node is running and serving RPC on this port: the sentinel holds
    /// the port.
    Running { port: u16 },
}

/// The lock sentinel of one data directory.
#[derive(Debug, Copy, Clone, Eq, PartialEq, Structural)]
pub struct RpcLock {
    pub status: RpcStatus,
}

impl RpcLock {
    /// A directory no node serves.
    pub fn new() -> (r: RpcLock)
        ensures
            r.status == RpcStatus::Stopped,
    {
        RpcLock { status: RpcStatus::Stopped }
    }

    /// Claims the directory for a node serving RPC on `port`.
    ///
    /// Succeeds — creating the sentinel — exactly when no node is running.
    /// When one is, the error names its port and the sentinel stays as it
    /// was: the failed start must not disturb the running node.
    pub fn start(&mut self, port: u16) -> (r: Result<(), AlreadyRunningError>)
        ensures
            match r {
                Ok(()) => old(self).status == RpcStatus::Stopped && final(self).status
                    == RpcStatus::Running { port },
                Err(e) => old(self).status == RpcStatus::Running { port: e.0 } && *final(self)
                    == *old(self),
            },
    {
        match self.status {
            RpcStatus::Stopped => {
                self.status = RpcStatus::Running { port };
                Ok(())
            },
            RpcStatus::Running { port: p } => Err(AlreadyRunningError(p)),
        }
    }

    /// Releases the directory on clean shutdown: the sentinel is removed.
    pub fn clean_shutdown(&mut self)
        ensures
            final(self).status == RpcStatus::Stopped,
    {
        self.status = RpcStatus::Stopped;
    }
}

/// What [`RpcLock::start`] does, as a transition function.
pub open spec fn start_spec(l: RpcLock, port: u16) -> (RpcLock, Result<(), AlreadyRunningError>) {
    match l.status {
        RpcStatus::Stopped => (RpcLock { status: RpcStatus::Running { port } }, Ok(())),
        RpcStatus::Running { port: p } => (l, Err(AlreadyRunningError(p))),
    }
}

/// Law of the sentinel lifecycle: on a stopped directory the first start
/// succeeds and creates the sentinel; a second start then fails, names the
/// first node's port, and leaves the sentinel exactly as it was; only a
/// clean shutdown removes it.
pub proof fn lemma_rpc_lock_lifecycle(port1: u16, port2: u16)
    ensures
        ({
            let l0 = RpcLock { status: RpcStatus::Stopped };
            let first = start_spec(l0, port1);
            let second = start_spec(first.0, port2);
            &&& first.1 == Ok::<(), AlreadyRunningError>(())
            &&& first.0.status == RpcStatus::Running { port: port1 }
            &&& second.1 == Err::<(), AlreadyRunningError>(AlreadyRunningError(port1))
            &&& second.0 == first.0
        }),
{
}

/// How a finished run decides whether to clear the sentinel.
pub enum CommandOutcome {
    /// The command finished without error.
    Success,
    /// Start-up failed because another node holds the directory.
    AlreadyRunning { port: u16 },
    /// The command failed for any other reason.
    OtherError,
}

/// Whether the sentinel should be cleared after a run: always, except when
/// the failure was that another node is running — its sentinel is not ours
/// to remove.
pub fn should_clear_rpc(outcome: &CommandOutcome) -> (r: bool)
    ensures
        r == !(outcome is AlreadyRunning),
{
    match outcome {
        CommandOutcome::AlreadyRunning { .. } => false,
        CommandOutcome::Success => true,
        CommandOutcome::OtherError => true,
    }
}

} // verus!
