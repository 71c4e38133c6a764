//! The local daemon socket: what to do with the socket path at start.
//!
//! The daemon listens on a stream socket at a well-known path. Before it
//! binds, it probes the path by connecting to it. A socket that answers
//! belongs to a running daemon, and start fails; a socket that refuses is left
//! over from a daemon that is gone, and is removed.

use vstd::prelude::*;
use crate::asset::AssetLoader;
use crate::runtime::{Plugin, RuntimeBuilder};

verus! {

/// How the probe of the socket path ended.
#[derive(Clone, Copy, Debug, PartialEq, Eq, Structural)]
pub enum Probe {
    /// No socket path could be found for this user.
    NoSocketPath,
    /// Something accepted the connection.
    Connected,
    /// The connection was refused.
    ConnectionRefused,
    /// There is nothing at the path.
    NotFound,
    /// The probe failed in another way.
    Failed,
}

/// Why the daemon cannot listen.
#[derive(Clone, Copy, Debug, PartialEq, Eq, Structural)]
pub enum ListenError {
    /// No socket path could be found.
    NotFound,
    /// Another daemon listens on the socket.
    AddrInUse,
    /// The error of the probe, handed on.
    Probe,
}

/// What to do after the probe.
#[derive(Clone, Copy, Debug, PartialEq, Eq, Structural)]
pub enum SocketPlan {
    /// Give up.
    Fail(ListenError),
    /// Remove the file at the path, then bind.
    RemoveThenBind,
    /// Bind.
    Bind,
}

/// The plan that follows from a probe.
pub open spec fn plan_of(probe: Probe) -> SocketPlan {
    match probe {
        Probe::NoSocketPath => SocketPlan::Fail(ListenError::NotFound),
        Probe::Connected => SocketPlan::Fail(ListenError::AddrInUse),
        Probe::ConnectionRefused => SocketPlan::RemoveThenBind,
        Probe::NotFound => SocketPlan::Bind,
        Probe::Failed => SocketPlan::Fail(ListenError::Probe),
    }
}

/// The plan that follows from a probe.
pub fn plan_socket(probe: Probe) -> (plan: SocketPlan)
    ensures
        plan == plan_of(probe),
{
    match probe {
        Probe::NoSocketPath => SocketPlan::Fail(ListenError::NotFound),
        Probe::Connected => SocketPlan::Fail(ListenError::AddrInUse),
        Probe::ConnectionRefused => SocketPlan::RemoveThenBind,
        Probe::NotFound => SocketPlan::Bind,
        Probe::Failed => SocketPlan::Fail(ListenError::Probe),
    }
}

/// A file is removed only where the probe was refused, and the daemon binds
/// only where the probe was refused or found nothing: a socket that answers is
/// never touched.
pub proof fn lemma_live_socket_is_kept(probe: Probe)
    ensures
        plan_of(probe) is RemoveThenBind <==> probe is ConnectionRefused,
        plan_of(probe) is Bind <==> probe is NotFound,
        probe is Connected ==> plan_of(probe) == SocketPlan::Fail(ListenError::AddrInUse),
{
}

/// The plugin that makes a runtime listen on the daemon socket.
#[derive(Clone, Copy, Debug, Default)]
pub struct DaemonPlugin {}

impl DaemonPlugin {
    /// The plugin.
    pub fn new() -> (plugin: DaemonPlugin) {
        DaemonPlugin {  }
    }

    /// The name of the hook under which the daemon's root process is started.
    pub fn hook_name() -> (name: String)
        ensures
            name@ == "hearth.init.Daemon"@,
    {
        "hearth.init.Daemon".to_owned()
    }
}

impl<L: AssetLoader> Plugin<L> for DaemonPlugin {
    /// The daemon registers nothing with the builder: its listener is started
    /// once the runtime runs.
    fn build(&mut self, builder: &mut RuntimeBuilder<L>) {
    }
}

} // verus!
