//! What holds of processes across operations.

use vstd::prelude::*;
use crate::capability::{Capability, Handle};
use crate::mailbox::{closed_mailbox, deliver_of, is_open, SignalModel};
use crate::mailbox_laws::{lemma_kill_closes_group, lemma_kill_len};
use crate::permissions::Permission;
use crate::process::{
    authorized, factory_wf, is_alive, kill_process_of, owns, FactoryModel, LocalProcessId,
    ProcessError, ProcessState,
};

verus! {

/// A process that was killed accepts nothing more: it is dead, its table is
/// released, each of its mailboxes is closed and drained, and a signal sent to
/// one of them afterwards is dropped.
pub proof fn lemma_killed_process_is_sealed(
    f: FactoryModel,
    target: LocalProcessId,
    mailbox: usize,
    signal: SignalModel,
)
    requires
        factory_wf(f),
        target.0 < f.processes.len(),
        owns(f, target, mailbox),
    ensures
        ({
            let after = kill_process_of(f, target.0 as int);
            &&& !is_alive(after, target)
            &&& after.processes[target.0 as int].state == ProcessState::Dead
            &&& after.processes[target.0 as int].table == Map::<Handle, Capability>::empty()
            &&& after.post[mailbox as int] == closed_mailbox(target.0 as usize)
            &&& !is_open(after.post, mailbox as int)
            &&& deliver_of(after.post, mailbox as int, signal) == after.post
        }),
{
    lemma_kill_len(f.post, target.0 as usize);
    lemma_kill_closes_group(f.post, target.0 as usize, mailbox as int);
}

/// An operation on a capability is refused unless the capability grants the
/// permission that the operation needs: whoever is authorized holds a live
/// handle to a capability with that permission.
pub proof fn lemma_authorized_needs_permission(
    f: FactoryModel,
    pid: LocalProcessId,
    handle: Handle,
    needed: Permission,
)
    ensures
        authorized(f, pid, handle, needed) is Ok <==> is_alive(f, pid) && f.processes[pid.0 as int].table.contains_key(
            handle,
        ) && f.processes[pid.0 as int].table[handle].perms@.contains(needed),
        authorized(f, pid, handle, needed) matches Ok(cap) ==> cap == f.processes[pid.0 as int].table[handle],
        is_alive(f, pid) && f.processes[pid.0 as int].table.contains_key(handle)
            && !f.processes[pid.0 as int].table[handle].perms@.contains(needed) ==> authorized(
            f,
            pid,
            handle,
            needed,
        ) == Err::<Capability, ProcessError>(ProcessError::PermissionDenied),
{
}

} // verus!
