//! Processes: identifiers, metadata, the lifecycle, and the factory that
//! spawns and kills them.
//!
//! The factory owns the capability table of every process and the post
//! office. A process acts through the factory's methods, which check the
//! permission that each operation needs before they touch a route.
//!
//! A process ends when it is killed, and its routes end with it. Dropping a
//! capability ends nothing: a route is owned by its process and lives until
//! its mailbox is closed or the process is killed, whether or not a
//! capability to it is left anywhere.

use vstd::prelude::*;
use crate::capability::{
    export_of, fresh_handles, import_all_of, import_of, Capability, CapabilityTable, Handle, Route,
    TableError,
};
use crate::mailbox::{
    deliver_of, fire_of, fresh_mailbox, is_open, kill_of, post_wf, take_of, watch_of, MailboxModel,
    PostOffice, Signal, SignalModel, Watch,
};
use crate::mailbox_laws::{
    fired_mailbox, lemma_create_keeps_wf, lemma_deliver_keeps_wf, lemma_fire_keeps_wf,
    lemma_fire_of, lemma_kill_closes_group, lemma_kill_keeps_wf, lemma_kill_len,
    lemma_take_keeps_wf, lemma_watch_keeps_wf,
};
use crate::permissions::{Permission, Permissions};

verus! {

/// Identifies a runtime host within a federation.
#[derive(Clone, Copy, Debug, PartialEq, Eq, Hash, Structural)]
pub struct PeerId(pub u32);

/// Identifies a process within its peer.
#[derive(Clone, Copy, Debug, PartialEq, Eq, Hash, Structural)]
pub struct LocalProcessId(pub u32);

/// Identifies a process within a federation: the peer in the high half, the
/// local identifier in the low half.
#[derive(Clone, Copy, Debug, PartialEq, Eq, Hash, Structural)]
pub struct ProcessId(pub u64);

impl ProcessId {
    /// The identifier of process `pid` on `peer`.
    pub fn from_peer_process(peer: PeerId, pid: LocalProcessId) -> (id: ProcessId)
        ensures
            id.0 == peer.0 as int * 0x1_0000_0000 + pid.0 as int,
    {
        let high: u64 = peer.0 as u64;
        let low: u64 = pid.0 as u64;
        assert(high * 0x1_0000_0000 + low <= u64::MAX) by (nonlinear_arith)
            requires
                high <= 0xFFFF_FFFF,
                low <= 0xFFFF_FFFF,
        ;
        ProcessId(high * 0x1_0000_0000 + low)
    }

    /// The peer and the local identifier that make up this identifier.
    pub fn split(&self) -> (parts: (PeerId, LocalProcessId))
        ensures
            parts.0.0 == self.0 / 0x1_0000_0000,
            parts.1.0 == self.0 % 0x1_0000_0000,
            self.0 == parts.0.0 as int * 0x1_0000_0000 + parts.1.0 as int,
    {
        let high: u64 = self.0 / 0x1_0000_0000;
        let low: u64 = self.0 % 0x1_0000_0000;
        (PeerId(high as u32), LocalProcessId(low as u32))
    }
}

/// Splitting an identifier made of a peer and a local identifier gives the
/// two back.
pub proof fn lemma_process_id_round_trip(peer: PeerId, pid: LocalProcessId)
    ensures
        (peer.0 as int * 0x1_0000_0000 + pid.0 as int) / 0x1_0000_0000 == peer.0,
        (peer.0 as int * 0x1_0000_0000 + pid.0 as int) % 0x1_0000_0000 == pid.0,
{
    let p = peer.0 as int;
    let l = pid.0 as int;
    assert((p * 0x1_0000_0000 + l) / 0x1_0000_0000 == p && (p * 0x1_0000_0000 + l) % 0x1_0000_0000
        == l) by (nonlinear_arith)
        requires
            0 <= l < 0x1_0000_0000,
            0 <= p,
    ;
}

/// What a process says of itself. None of it changes what the runtime does.
#[derive(Clone, Debug, Default)]
pub struct ProcessMetadata {
    pub name: Option<String>,
    pub description: Option<String>,
    pub authors: Option<Vec<String>>,
    pub repository: Option<String>,
    pub homepage: Option<String>,
    pub license: Option<String>,
}

/// Where a process stands in its lifecycle.
#[derive(Clone, Copy, Debug, PartialEq, Eq, Structural)]
pub enum ProcessState {
    /// Allocated, not yet running.
    Spawned,
    /// Running.
    Live,
    /// Being torn down: mailboxes are drained, monitors fire, the capability
    /// table is released.
    Terminating,
    /// Gone for good.
    Dead,
}

/// What moves a process along its lifecycle.
#[derive(Clone, Copy, Debug, PartialEq, Eq, Structural)]
pub enum ProcessEvent {
    /// The process starts to run.
    Run,
    /// A holder of a capability with `KILL` asked for its end.
    Kill,
    /// Its parent went down.
    ParentDown,
    /// The connection to the peer that hosts it was lost.
    PeerLost,
    /// Teardown is complete.
    Drained,
}

/// The state that follows `state` on `event`. An event that does not apply in
/// a state leaves it as it is; `Dead` is never left.
pub open spec fn next_state(state: ProcessState, event: ProcessEvent) -> ProcessState {
    match (state, event) {
        (ProcessState::Spawned, ProcessEvent::Run) => ProcessState::Live,
        (ProcessState::Spawned, ProcessEvent::Kill) => ProcessState::Terminating,
        (ProcessState::Spawned, ProcessEvent::ParentDown) => ProcessState::Terminating,
        (ProcessState::Spawned, ProcessEvent::PeerLost) => ProcessState::Terminating,
        (ProcessState::Live, ProcessEvent::Kill) => ProcessState::Terminating,
        (ProcessState::Live, ProcessEvent::ParentDown) => ProcessState::Terminating,
        (ProcessState::Live, ProcessEvent::PeerLost) => ProcessState::Terminating,
        (ProcessState::Terminating, ProcessEvent::Drained) => ProcessState::Dead,
        _ => state,
    }
}

impl ProcessState {
    /// Whether the process may still act and be sent to.
    pub open spec fn spec_is_alive(self) -> bool {
        self is Spawned || self is Live
    }

    /// Whether the process may still act and be sent to.
    #[verifier::when_used_as_spec(spec_is_alive)]
    pub fn is_alive(self) -> (r: bool)
        ensures
            r == self.spec_is_alive(),
    {
        match self {
            ProcessState::Spawned => true,
            ProcessState::Live => true,
            _ => false,
        }
    }

    /// The state that follows on `event`.
    pub fn step(self, event: ProcessEvent) -> (next: ProcessState)
        ensures
            next == next_state(self, event),
    {
        match self {
            ProcessState::Spawned => match event {
                ProcessEvent::Run => ProcessState::Live,
                ProcessEvent::Kill => ProcessState::Terminating,
                ProcessEvent::ParentDown => ProcessState::Terminating,
                ProcessEvent::PeerLost => ProcessState::Terminating,
                ProcessEvent::Drained => ProcessState::Spawned,
            },
            ProcessState::Live => match event {
                ProcessEvent::Run => ProcessState::Live,
                ProcessEvent::Kill => ProcessState::Terminating,
                ProcessEvent::ParentDown => ProcessState::Terminating,
                ProcessEvent::PeerLost => ProcessState::Terminating,
                ProcessEvent::Drained => ProcessState::Live,
            },
            ProcessState::Terminating => match event {
                ProcessEvent::Drained => ProcessState::Dead,
                _ => ProcessState::Terminating,
            },
            ProcessState::Dead => ProcessState::Dead,
        }
    }
}

/// `Dead` is terminal, and a process that is not alive never becomes alive
/// again.
pub proof fn lemma_dead_is_terminal(state: ProcessState, event: ProcessEvent)
    ensures
        state is Dead ==> next_state(state, event) is Dead,
        !state.spec_is_alive() ==> !next_state(state, event).spec_is_alive(),
{
}

/// A process as a plain value.
pub struct ProcessModel {
    /// Where the process stands in its lifecycle.
    pub state: ProcessState,
    /// What it was spawned with.
    pub metadata: ProcessMetadata,
    /// Its capability table.
    pub table: Map<Handle, Capability>,
    /// How many handles its table has issued.
    pub issued: nat,
}

/// The factory as a plain value.
pub struct FactoryModel {
    /// Every process ever spawned; a process identifier is an index here.
    pub processes: Seq<ProcessModel>,
    /// Every mailbox ever created.
    pub post: Seq<MailboxModel>,
    /// The most processes that may be alive at once.
    pub limit: nat,
}

/// How many of `processes` are alive.
pub open spec fn live_count(processes: Seq<ProcessModel>) -> nat
    decreases processes.len(),
{
    if processes.len() == 0 {
        0
    } else {
        live_count(processes.drop_last()) + (if processes.last().state.spec_is_alive() {
            1nat
        } else {
            0nat
        })
    }
}

/// The invariant of the factory.
pub open spec fn factory_wf(f: FactoryModel) -> bool {
    &&& post_wf(f.post)
    &&& f.processes.len() <= u32::MAX
    &&& forall|p: int, h: Handle|
        0 <= p < f.processes.len() && #[trigger] f.processes[p].table.contains_key(h) ==> h.0
            < f.processes[p].issued
    &&& forall|p: int|
        0 <= p < f.processes.len() && !(#[trigger] f.processes[p]).state.spec_is_alive()
            ==> f.processes[p].state is Dead && f.processes[p].table == Map::<
            Handle,
            Capability,
        >::empty()
    &&& forall|m: int|
        0 <= m < f.post.len() ==> (#[trigger] f.post[m]).group < f.processes.len()
    &&& forall|m: int|
        0 <= m < f.post.len() && (#[trigger] f.post[m]).open ==> f.processes[f.post[m].group as int].state.spec_is_alive()
}

/// Why the factory refused an operation.
#[derive(Clone, Copy, Debug, PartialEq, Eq, Structural)]
pub enum ProcessError {
    /// As many processes are alive as the peer allows.
    SpawnLimit,
    /// The acting process does not exist or is no longer alive.
    NoSuchProcess,
    /// The mailbox does not belong to the acting process.
    NotOwner,
    /// The handle names no live entry of the acting process's table.
    InvalidHandle,
    /// The capability lacks the permission that the operation needs.
    PermissionDenied,
}

/// What `spawn` hands to the spawner.
#[derive(Clone, Copy, Debug, PartialEq, Eq, Structural)]
pub struct Spawned {
    /// The identifier of the new process.
    pub pid: LocalProcessId,
    /// The first mailbox of the new process.
    pub mailbox: usize,
    /// A capability to that mailbox with every permission.
    pub cap: Capability,
}

struct Process {
    state: ProcessState,
    metadata: ProcessMetadata,
    table: CapabilityTable,
}

impl View for Process {
    type V = ProcessModel;

    closed spec fn view(&self) -> ProcessModel {
        ProcessModel {
            state: self.state,
            metadata: self.metadata,
            table: self.table@,
            issued: self.table.issued(),
        }
    }
}

/// Spawns and kills processes, and carries out what they ask for.
pub struct ProcessFactory {
    processes: Vec<Process>,
    post: PostOffice,
    limit: usize,
    live: usize,
}

impl View for ProcessFactory {
    type V = FactoryModel;

    closed spec fn view(&self) -> FactoryModel {
        FactoryModel {
            processes: Seq::new(self.processes@.len(), |i: int| self.processes@[i]@),
            post: self.post@,
            limit: self.limit as nat,
        }
    }
}

/// Whether `pid` names a process of `f` that is alive.
pub open spec fn is_alive(f: FactoryModel, pid: LocalProcessId) -> bool {
    pid.0 < f.processes.len() && f.processes[pid.0 as int].state.spec_is_alive()
}

/// Whether `mailbox` is a mailbox of process `pid`.
pub open spec fn owns(f: FactoryModel, pid: LocalProcessId, mailbox: usize) -> bool {
    mailbox < f.post.len() && f.post[mailbox as int].group == pid.0
}

/// The factory after a process was spawned with `metadata`: the process is
/// appended with an empty table, its first mailbox is created, and where a
/// parent mailbox is given a watch on the new mailbox is installed for it.
pub open spec fn spawn_of(f: FactoryModel, metadata: ProcessMetadata, parent: Option<usize>)
    -> FactoryModel {
    let pid = f.processes.len();
    let mailbox = f.post.len();
    let cap = spawn_cap(f);
    let created = f.post.push(fresh_mailbox(pid as usize));
    FactoryModel {
        processes: f.processes.push(
            ProcessModel { state: ProcessState::Spawned, metadata, table: Map::empty(), issued: 0 },
        ),
        post: match parent {
            Some(watcher) => watch_of(created, cap, watcher),
            None => created,
        },
        limit: f.limit,
    }
}

/// The capability that the next `spawn` hands out: to the mailbox created
/// next, with every permission.
pub open spec fn spawn_cap(f: FactoryModel) -> Capability {
    Capability {
        route: Route::Local { mailbox: f.post.len() as usize },
        perms: Permissions::spec_all(),
    }
}

/// The factory with the table of process `pid` replaced.
pub open spec fn with_table(
    f: FactoryModel,
    pid: LocalProcessId,
    table: Map<Handle, Capability>,
    issued: nat,
) -> FactoryModel {
    FactoryModel {
        processes: f.processes.update(
            pid.0 as int,
            ProcessModel { table, issued, ..f.processes[pid.0 as int] },
        ),
        ..f
    }
}

/// The factory with the post office replaced.
pub open spec fn with_post(f: FactoryModel, post: Seq<MailboxModel>) -> FactoryModel {
    FactoryModel { post, ..f }
}

impl ProcessFactory {
    /// Whether the invariant holds: see [`factory_wf`].
    pub closed spec fn wf(&self) -> bool {
        &&& factory_wf(self@)
        &&& self.live == live_count(self@.processes)
    }

    /// What `wf` says of the view.
    pub proof fn lemma_wf(&self)
        requires
            self.wf(),
        ensures
            factory_wf(self@),
    {
    }

    /// A factory without processes that lets at most `limit` be alive at once.
    pub fn new(limit: usize) -> (factory: ProcessFactory)
        ensures
            factory.wf(),
            factory@.processes == Seq::<ProcessModel>::empty(),
            factory@.post == Seq::<MailboxModel>::empty(),
            factory@.limit == limit,
    {
        let factory = ProcessFactory {
            processes: Vec::new(),
            post: PostOffice::new(),
            limit,
            live: 0,
        };
        assert(factory@.processes =~= Seq::<ProcessModel>::empty());
        factory
    }

    /// Changes how many processes may be alive at once. Processes that are
    /// alive stay alive; only spawning is held to the new limit.
    pub fn set_limit(&mut self, limit: usize)
        requires
            old(self).wf(),
        ensures
            final(self).wf(),
            final(self)@ == (FactoryModel { limit: limit as nat, ..old(self)@ }),
    {
        let ghost before = self@;
        self.limit = limit;
        proof {
            let after = self@;
            assert(after.processes =~= before.processes);
            lemma_same_tables_keep_wf(before, after);
        }
    }

    /// Begins an orderly shutdown: from now on every spawn is refused. The
    /// processes that are alive go on until they are killed.
    pub fn shutdown(&mut self)
        requires
            old(self).wf(),
        ensures
            final(self).wf(),
            final(self)@ == (FactoryModel { limit: 0, ..old(self)@ }),
    {
        self.set_limit(0);
    }

    /// Hands a signal that came from outside, from a peer, to the mailbox
    /// that `route` leads to. The result says whether it was queued: a signal
    /// to a remote route, or to a mailbox that is closed, is dropped.
    pub fn deliver(&mut self, route: Route, signal: Signal) -> (queued: bool)
        requires
            old(self).wf(),
        ensures
            final(self).wf(),
            queued == (route matches Route::Local { mailbox } && is_open(
                old(self)@.post,
                mailbox as int,
            )),
            final(self)@ == (match route {
                Route::Local { mailbox } => with_post(
                    old(self)@,
                    deliver_of(old(self)@.post, mailbox as int, signal@),
                ),
                Route::Remote { .. } => old(self)@,
            }),
    {
        match route {
            Route::Remote { .. } => false,
            Route::Local { mailbox } => {
                let ghost before = self@;
                let ghost model = signal@;
                let queued = self.post.deliver(mailbox, signal);
                proof {
                    let after = self@;
                    assert(after.processes =~= before.processes);
                    lemma_deliver_keeps_wf(before.post, mailbox as int, model);
                    lemma_post_change_keeps_wf(before, after.post);
                }
                queued
            },
        }
    }

    /// Fires watches that were kept outside the post office, as those on the
    /// capabilities of a peer whose connection is lost: each watcher gets its
    /// `Down`, in order.
    pub fn fire(&mut self, watches: &Vec<Watch>)
        requires
            old(self).wf(),
        ensures
            final(self).wf(),
            final(self)@ == with_post(old(self)@, fire_of(old(self)@.post, watches@)),
    {
        let ghost before = self@;
        self.post.fire(watches);
        proof {
            let after = self@;
            assert(after.processes =~= before.processes);
            lemma_fire_keeps_wf(before.post, watches@);
            lemma_fire_of(before.post, watches@);
            assert forall|m: int| 0 <= m < after.post.len() implies (#[trigger] after.post[m]).group
                == before.post[m].group && (after.post[m].open ==> before.post[m].open) by {
                assert(after.post[m] == fired_mailbox(before.post[m], watches@, m));
            }
            lemma_post_change_keeps_wf(before, after.post);
        }
    }

    /// How many processes are alive.
    pub fn live(&self) -> (n: usize)
        requires
            self.wf(),
        ensures
            n == live_count(self@.processes),
    {
        self.live
    }

    /// The state of process `pid`, if it was ever spawned.
    pub fn state(&self, pid: LocalProcessId) -> (r: Option<ProcessState>)
        ensures
            r == (if pid.0 < self@.processes.len() {
                Some(self@.processes[pid.0 as int].state)
            } else {
                None
            }),
    {
        if (pid.0 as usize) < self.processes.len() {
            Some(self.processes[pid.0 as usize].state)
        } else {
            None
        }
    }

    /// Whether process `pid` is alive.
    pub fn is_alive(&self, pid: LocalProcessId) -> (r: bool)
        ensures
            r == is_alive(self@, pid),
    {
        (pid.0 as usize) < self.processes.len() && self.processes[pid.0 as usize].state.is_alive()
    }

    /// Whether `mailbox` is a mailbox of process `pid`.
    pub fn owns(&self, pid: LocalProcessId, mailbox: usize) -> (r: bool)
        ensures
            r == owns(self@, pid, mailbox),
    {
        match self.post.group_of(mailbox) {
            Some(group) => group == pid.0 as usize,
            None => false,
        }
    }

    /// The post office, to look at.
    pub fn post(&self) -> (post: &PostOffice)
        ensures
            post@ == self@.post,
    {
        &self.post
    }

    /// The capability table of process `pid`, to look at.
    pub fn table(&self, pid: LocalProcessId) -> (r: Option<&CapabilityTable>)
        ensures
            r is Some <==> pid.0 < self@.processes.len(),
            r matches Some(t) ==> t@ == self@.processes[pid.0 as int].table && t.issued()
                == self@.processes[pid.0 as int].issued,
    {
        if (pid.0 as usize) < self.processes.len() {
            Some(&self.processes[pid.0 as usize].table)
        } else {
            None
        }
    }

    /// What process `pid` was spawned with.
    pub fn metadata(&self, pid: LocalProcessId) -> (r: Option<&ProcessMetadata>)
        ensures
            r is Some <==> pid.0 < self@.processes.len(),
            r matches Some(m) ==> *m == self@.processes[pid.0 as int].metadata,
    {
        if (pid.0 as usize) < self.processes.len() {
            Some(&self.processes[pid.0 as usize].metadata)
        } else {
            None
        }
    }

    /// Spawns a process. It gets the next identifier, an empty capability table
    /// and a first mailbox; the spawner gets a capability to that mailbox with
    /// every permission. Where `parent` names a mailbox, that mailbox is told
    /// with a `Down` when the new process ends. Refused with `SpawnLimit` when
    /// as many processes are alive as the limit allows, or when identifiers
    /// have run out.
    pub fn spawn(&mut self, metadata: ProcessMetadata, parent: Option<usize>) -> (r: Result<
        Spawned,
        ProcessError,
    >)
        requires
            old(self).wf(),
        ensures
            final(self).wf(),
            r is Ok <==> live_count(old(self)@.processes) < old(self)@.limit && old(
                self,
            )@.processes.len() < u32::MAX,
            r matches Ok(s) ==> s.pid.0 == old(self)@.processes.len() && s.mailbox == old(
                self,
            )@.post.len() && s.cap == spawn_cap(old(self)@) && final(self)@ == spawn_of(
                old(self)@,
                metadata,
                parent,
            ),
            r matches Err(e) ==> e == ProcessError::SpawnLimit && final(self)@ == old(self)@,
            r is Ok ==> live_count(final(self)@.processes) == live_count(old(self)@.processes) + 1,
    {
        if self.live >= self.limit || self.processes.len() >= u32::MAX as usize {
            return Err(ProcessError::SpawnLimit);
        }
        let pid = self.processes.len();
        let ghost before = self@;
        let mailbox = self.post.create(pid);
        proof {
            lemma_create_keeps_wf(before.post, pid);
        }
        let cap = Capability { route: Route::Local { mailbox }, perms: Permissions::all() };
        match parent {
            Some(watcher) => {
                proof {
                    lemma_watch_keeps_wf(self.post@, cap, watcher);
                }
                self.post.watch(cap, watcher);
            },
            None => {},
        }
        self.processes.push(
            Process { state: ProcessState::Spawned, metadata, table: CapabilityTable::new() },
        );
        self.live = self.live + 1;
        proof {
            let after = self@;
            assert(after.processes =~= before.processes.push(
                ProcessModel {
                    state: ProcessState::Spawned,
                    metadata,
                    table: Map::empty(),
                    issued: 0,
                },
            ));
            assert(after.processes.drop_last() =~= before.processes);
            assert(after == spawn_of(before, metadata, parent));
            lemma_spawn_keeps_wf(before, metadata, parent);
        }
        Ok(Spawned { pid: LocalProcessId(pid as u32), mailbox, cap })
    }
}

/// Spawning keeps the invariant of the factory.
pub proof fn lemma_spawn_keeps_wf(f: FactoryModel, metadata: ProcessMetadata, parent: Option<usize>)
    requires
        factory_wf(f),
        live_count(f.processes) < f.limit,
        f.processes.len() < u32::MAX,
        f.post.len() < usize::MAX,
    ensures
        factory_wf(spawn_of(f, metadata, parent)),
        live_count(spawn_of(f, metadata, parent).processes) == live_count(f.processes) + 1,
{
    let after = spawn_of(f, metadata, parent);
    let pid = f.processes.len();
    let created = f.post.push(fresh_mailbox(pid as usize));
    let cap = spawn_cap(f);
    lemma_create_keeps_wf(f.post, pid as usize);
    assert(after.processes.drop_last() =~= f.processes);
    match parent {
        Some(watcher) => {
            lemma_watch_keeps_wf(created, cap, watcher);
            lemma_watch_shape(created, cap, watcher);
        },
        None => {},
    }
    assert forall|m: int| 0 <= m < after.post.len() implies (#[trigger] after.post[m]).group
        < after.processes.len() by {
        assert(after.post[m].group == created[m].group);
        if m < f.post.len() {
            assert(created[m] == f.post[m]);
        }
    }
    assert forall|m: int| 0 <= m < after.post.len() && (#[trigger] after.post[m]).open implies after.processes[after.post[m].group as int].state.spec_is_alive() by {
        assert(after.post[m].group == created[m].group);
        assert(after.post[m].open == created[m].open);
        if m < f.post.len() {
            assert(created[m] == f.post[m]);
        }
    }
}

/// How a send ended.
#[derive(Debug)]
pub enum SendOutcome {
    /// The message was queued at a local mailbox.
    Delivered,
    /// The route is closed; the message was dropped.
    RouteClosed,
    /// The route leads to a peer; the message is handed back for framing.
    Forward { peer: u32, cap: u64, payload: Vec<u8>, caps: Vec<Capability> },
}

/// A send outcome as a plain value.
pub enum SendOutcomeModel {
    Delivered,
    RouteClosed,
    Forward { peer: u32, cap: u64, payload: Seq<u8>, caps: Seq<Capability> },
}

impl View for SendOutcome {
    type V = SendOutcomeModel;

    open spec fn view(&self) -> SendOutcomeModel {
        match self {
            SendOutcome::Delivered => SendOutcomeModel::Delivered,
            SendOutcome::RouteClosed => SendOutcomeModel::RouteClosed,
            SendOutcome::Forward { peer, cap, payload, caps } => SendOutcomeModel::Forward {
                peer: *peer,
                cap: *cap,
                payload: payload@,
                caps: caps@,
            },
        }
    }
}

/// Where an operation on a route was carried out.
#[derive(Clone, Copy, Debug, PartialEq, Eq, Structural)]
pub enum Dispatch {
    /// On a mailbox of this runtime; it is done.
    Local,
    /// The route leads to a peer, which has to be asked.
    Remote { peer: u32, cap: u64 },
}

/// What a process receives: the capabilities have been entered into its table
/// and are given as handles.
#[derive(Debug)]
pub enum Received {
    Message { payload: Vec<u8>, caps: Vec<Handle> },
    Down { subject: Handle },
}

/// A received signal as a plain value.
pub enum ReceivedModel {
    Message { payload: Seq<u8>, caps: Seq<Handle> },
    Down { subject: Handle },
}

impl View for Received {
    type V = ReceivedModel;

    open spec fn view(&self) -> ReceivedModel {
        match self {
            Received::Message { payload, caps } => ReceivedModel::Message {
                payload: payload@,
                caps: caps@,
            },
            Received::Down { subject } => ReceivedModel::Down { subject: *subject },
        }
    }
}

/// What a poll over several mailboxes found.
#[derive(Debug)]
pub enum Poll {
    /// No mailbox was given.
    NoMailboxes,
    /// No mailbox given holds a signal.
    Pending,
    /// The mailbox at `index` of the list held `signal`, which was taken.
    Ready { index: usize, signal: Received },
}

/// A poll result as a plain value.
pub enum PollModel {
    NoMailboxes,
    Pending,
    Ready { index: usize, signal: ReceivedModel },
}

impl View for Poll {
    type V = PollModel;

    open spec fn view(&self) -> PollModel {
        match self {
            Poll::NoMailboxes => PollModel::NoMailboxes,
            Poll::Pending => PollModel::Pending,
            Poll::Ready { index, signal } => PollModel::Ready { index: *index, signal: signal@ },
        }
    }
}

/// The capabilities behind `handles`, where each is live.
pub open spec fn caps_of(table: Map<Handle, Capability>, handles: Seq<Handle>) -> Option<
    Seq<Capability>,
> {
    if forall|i: int| 0 <= i < handles.len() ==> table.contains_key(#[trigger] handles[i]) {
        Some(Seq::new(handles.len(), |i: int| table[handles[i]]))
    } else {
        None
    }
}

/// The capability behind `handle` in the table of `pid`, where process `pid`
/// is alive, the handle is live and the capability grants `needed`; else the
/// reason why the operation is refused.
pub open spec fn authorized(
    f: FactoryModel,
    pid: LocalProcessId,
    handle: Handle,
    needed: Permission,
) -> Result<Capability, ProcessError> {
    if !is_alive(f, pid) {
        Err(ProcessError::NoSuchProcess)
    } else if !f.processes[pid.0 as int].table.contains_key(handle) {
        Err(ProcessError::InvalidHandle)
    } else if !f.processes[pid.0 as int].table[handle].perms@.contains(needed) {
        Err(ProcessError::PermissionDenied)
    } else {
        Ok(f.processes[pid.0 as int].table[handle])
    }
}

/// What a send by `pid` to `target` carries and where it goes, or why it is
/// refused. The target is checked first, for its handle and then for `SEND`;
/// then each handle of `caps`, which are sent with the permissions they have.
pub open spec fn send_check(
    f: FactoryModel,
    pid: LocalProcessId,
    target: Handle,
    caps: Seq<Handle>,
) -> Result<(Capability, Seq<Capability>), ProcessError> {
    match authorized(f, pid, target, Permission::Send) {
        Err(e) => Err(e),
        Ok(cap) => match caps_of(f.processes[pid.0 as int].table, caps) {
            None => Err(ProcessError::InvalidHandle),
            Some(exported) => Ok((cap, exported)),
        },
    }
}

/// The factory after the process `target` was killed: it is dead, its table
/// is released, and its route group is killed at the post office.
pub open spec fn kill_process_of(f: FactoryModel, target: int) -> FactoryModel {
    if 0 <= target < f.processes.len() {
        FactoryModel {
            processes: f.processes.update(
                target,
                ProcessModel {
                    state: ProcessState::Dead,
                    table: Map::empty(),
                    ..f.processes[target]
                },
            ),
            post: kill_of(f.post, target as usize),
            limit: f.limit,
        }
    } else {
        f
    }
}

/// The capabilities that travel with a signal.
pub open spec fn caps_in(signal: SignalModel) -> Seq<Capability> {
    match signal {
        SignalModel::Message { caps, .. } => caps,
        SignalModel::Down { subject } => seq![subject],
    }
}

/// What the receiver of `signal` is given when its table had issued `issued`
/// handles: each capability has become the handle issued for it.
pub open spec fn received_of(signal: SignalModel, issued: nat) -> ReceivedModel {
    match signal {
        SignalModel::Message { payload, caps } => ReceivedModel::Message {
            payload,
            caps: fresh_handles(issued, caps.len()),
        },
        SignalModel::Down { .. } => ReceivedModel::Down { subject: Handle(issued as usize) },
    }
}

/// The factory after process `pid` took the oldest signal of `mailbox`: the
/// signal leaves the queue, and the capabilities that came with it are in the
/// table of `pid` under fresh handles.
pub open spec fn receive_of(f: FactoryModel, pid: LocalProcessId, mailbox: usize) -> FactoryModel {
    let p = f.processes[pid.0 as int];
    let signal = f.post[mailbox as int].queue[0];
    let caps = caps_in(signal);
    with_post(
        with_table(f, pid, import_all_of(p.table, p.issued, caps), p.issued + caps.len()),
        take_of(f.post, mailbox as int),
    )
}

/// Whether a signal waits in `mailbox`.
pub open spec fn has_signal(f: FactoryModel, mailbox: usize) -> bool {
    mailbox < f.post.len() && f.post[mailbox as int].queue.len() > 0
}

/// Whether `index` is the first position of `mailboxes` whose mailbox holds a
/// signal.
pub open spec fn first_ready(f: FactoryModel, mailboxes: Seq<usize>, index: int) -> bool {
    &&& 0 <= index < mailboxes.len()
    &&& has_signal(f, mailboxes[index])
    &&& forall|k: int| 0 <= k < index ==> !has_signal(f, #[trigger] mailboxes[k])
}

impl ProcessFactory {
    /// Marks a spawned process as running.
    pub fn run(&mut self, pid: LocalProcessId) -> (r: Result<(), ProcessError>)
        requires
            old(self).wf(),
        ensures
            final(self).wf(),
            r is Ok <==> is_alive(old(self)@, pid),
            r is Err ==> r == Err::<(), ProcessError>(ProcessError::NoSuchProcess) && final(self)@
                == old(self)@,
            r is Ok ==> final(self)@ == (FactoryModel {
                processes: old(self)@.processes.update(
                    pid.0 as int,
                    ProcessModel {
                        state: ProcessState::Live,
                        ..old(self)@.processes[pid.0 as int]
                    },
                ),
                ..old(self)@
            }),
    {
        if !self.is_alive(pid) {
            return Err(ProcessError::NoSuchProcess);
        }
        let ghost before = self@;
        self.processes[pid.0 as usize].state = ProcessState::Live;
        proof {
            let after = self@;
            assert(after.processes =~= before.processes.update(
                pid.0 as int,
                ProcessModel { state: ProcessState::Live, ..before.processes[pid.0 as int] },
            ));
            lemma_live_count_update(
                before.processes,
                pid.0 as int,
                ProcessModel { state: ProcessState::Live, ..before.processes[pid.0 as int] },
            );
            lemma_same_liveness_keeps_wf(before, after);
        }
        Ok(())
    }

    /// Creates a mailbox for process `pid`.
    pub fn mailbox_new(&mut self, pid: LocalProcessId) -> (r: Result<usize, ProcessError>)
        requires
            old(self).wf(),
        ensures
            final(self).wf(),
            r is Ok <==> is_alive(old(self)@, pid),
            r is Err ==> r == Err::<usize, ProcessError>(ProcessError::NoSuchProcess),
            r is Err ==> final(self)@ == old(self)@,
            r matches Ok(mailbox) ==> mailbox == old(self)@.post.len() && final(self)@ == with_post(
                old(self)@,
                old(self)@.post.push(fresh_mailbox(pid.0 as usize)),
            ),
    {
        if !self.is_alive(pid) {
            return Err(ProcessError::NoSuchProcess);
        }
        let ghost before = self@;
        let mailbox = self.post.create(pid.0 as usize);
        proof {
            lemma_create_keeps_wf(before.post, pid.0 as usize);
            let after = self@;
            assert(after.processes =~= before.processes);
            assert forall|m: int| 0 <= m < after.post.len() implies (#[trigger] after.post[m]).group
                < after.processes.len() && (after.post[m].open
                ==> after.processes[after.post[m].group as int].state.spec_is_alive()) by {
                if m < before.post.len() {
                    assert(after.post[m] == before.post[m]);
                }
            }
        }
        Ok(mailbox)
    }

    /// Enters `cap` into the table of process `pid` under a fresh handle.
    pub fn import(&mut self, pid: LocalProcessId, cap: Capability) -> (r: Result<
        Handle,
        ProcessError,
    >)
        requires
            old(self).wf(),
        ensures
            final(self).wf(),
            r is Ok <==> is_alive(old(self)@, pid),
            r is Err ==> r == Err::<Handle, ProcessError>(ProcessError::NoSuchProcess),
            r is Err ==> final(self)@ == old(self)@,
            r matches Ok(handle) ==> handle.0 == old(self)@.processes[pid.0 as int].issued
                && final(self)@ == with_table(
                old(self)@,
                pid,
                import_of(old(self)@.processes[pid.0 as int].table, handle, cap),
                old(self)@.processes[pid.0 as int].issued + 1,
            ),
    {
        if !self.is_alive(pid) {
            return Err(ProcessError::NoSuchProcess);
        }
        let ghost before = self@;
        let handle = self.processes[pid.0 as usize].table.import(cap);
        proof {
            let after = self@;
            let p = before.processes[pid.0 as int];
            let expected = with_table(before, pid, import_of(p.table, handle, cap), p.issued + 1);
            assert(after.processes =~= expected.processes);
            lemma_table_change_keeps_wf(before, pid, import_of(p.table, handle, cap), p.issued + 1);
        }
        Ok(handle)
    }

    /// Gives process `pid` a capability to its own mailbox `mailbox` with
    /// `perms`, under a fresh handle.
    pub fn make_capability(&mut self, pid: LocalProcessId, mailbox: usize, perms: Permissions)
        -> (r: Result<Handle, ProcessError>)
        requires
            old(self).wf(),
        ensures
            final(self).wf(),
            r is Ok <==> is_alive(old(self)@, pid) && owns(old(self)@, pid, mailbox),
            !is_alive(old(self)@, pid) ==> r == Err::<Handle, ProcessError>(
                ProcessError::NoSuchProcess,
            ),
            is_alive(old(self)@, pid) && !owns(old(self)@, pid, mailbox) ==> r == Err::<
                Handle,
                ProcessError,
            >(ProcessError::NotOwner),
            r is Err ==> final(self)@ == old(self)@,
            r matches Ok(handle) ==> handle.0 == old(self)@.processes[pid.0 as int].issued
                && final(self)@ == with_table(
                old(self)@,
                pid,
                import_of(
                    old(self)@.processes[pid.0 as int].table,
                    handle,
                    (Capability { route: Route::Local { mailbox }, perms }),
                ),
                old(self)@.processes[pid.0 as int].issued + 1,
            ),
    {
        if !self.is_alive(pid) {
            return Err(ProcessError::NoSuchProcess);
        }
        if !self.owns(pid, mailbox) {
            return Err(ProcessError::NotOwner);
        }
        self.import(pid, Capability { route: Route::Local { mailbox }, perms })
    }

    /// A transferable capability to the route of `handle` in the table of
    /// `pid`, restricted to `perms`.
    pub fn export(&self, pid: LocalProcessId, handle: Handle, perms: Permissions) -> (r: Result<
        Capability,
        ProcessError,
    >)
        ensures
            !is_alive(self@, pid) ==> r == Err::<Capability, ProcessError>(
                ProcessError::NoSuchProcess,
            ),
            is_alive(self@, pid) ==> r == table_result(
                export_of(self@.processes[pid.0 as int].table, handle, perms),
            ),
    {
        if !self.is_alive(pid) {
            return Err(ProcessError::NoSuchProcess);
        }
        match self.processes[pid.0 as usize].table.export(handle, perms) {
            Ok(cap) => Ok(cap),
            Err(TableError::InvalidHandle) => Err(ProcessError::InvalidHandle),
            Err(TableError::PermissionDenied) => Err(ProcessError::PermissionDenied),
        }
    }

    /// A fresh handle in the table of `pid` to the route of `handle`,
    /// restricted to `perms`.
    pub fn demote(&mut self, pid: LocalProcessId, handle: Handle, perms: Permissions) -> (r: Result<
        Handle,
        ProcessError,
    >)
        requires
            old(self).wf(),
        ensures
            final(self).wf(),
            !is_alive(old(self)@, pid) ==> r == Err::<Handle, ProcessError>(
                ProcessError::NoSuchProcess,
            ),
            is_alive(old(self)@, pid) ==> (r is Ok <==> export_of(
                old(self)@.processes[pid.0 as int].table,
                handle,
                perms,
            ) is Ok),
            r matches Err(e) ==> final(self)@ == old(self)@ && (is_alive(old(self)@, pid)
                ==> Err::<Capability, ProcessError>(e) == table_result(
                export_of(old(self)@.processes[pid.0 as int].table, handle, perms),
            )),
            r matches Ok(fresh) ==> fresh.0 == old(self)@.processes[pid.0 as int].issued
                && final(self)@ == with_table(
                old(self)@,
                pid,
                import_of(
                    old(self)@.processes[pid.0 as int].table,
                    fresh,
                    export_of(old(self)@.processes[pid.0 as int].table, handle, perms)->Ok_0,
                ),
                old(self)@.processes[pid.0 as int].issued + 1,
            ),
    {
        match self.export(pid, handle, perms) {
            Ok(cap) => self.import(pid, cap),
            Err(e) => Err(e),
        }
    }

    /// Releases `handle` in the table of `pid`. The post office stays as it
    /// is: the route that the handle named is neither closed nor counted.
    pub fn drop_cap(&mut self, pid: LocalProcessId, handle: Handle) -> (r: Result<(), ProcessError>)
        requires
            old(self).wf(),
        ensures
            final(self).wf(),
            !is_alive(old(self)@, pid) ==> r == Err::<(), ProcessError>(
                ProcessError::NoSuchProcess,
            ),
            is_alive(old(self)@, pid) && !old(self)@.processes[pid.0 as int].table.contains_key(
                handle,
            ) ==> r == Err::<(), ProcessError>(ProcessError::InvalidHandle),
            is_alive(old(self)@, pid) && old(self)@.processes[pid.0 as int].table.contains_key(
                handle,
            ) ==> r is Ok,
            r is Err ==> final(self)@ == old(self)@,
            r is Ok ==> final(self)@ == with_table(
                old(self)@,
                pid,
                old(self)@.processes[pid.0 as int].table.remove(handle),
                old(self)@.processes[pid.0 as int].issued,
            ),
    {
        if !self.is_alive(pid) {
            return Err(ProcessError::NoSuchProcess);
        }
        let ghost before = self@;
        let dropped = self.processes[pid.0 as usize].table.drop(handle);
        proof {
            let after = self@;
            let p = before.processes[pid.0 as int];
            if dropped is Ok {
                let expected = with_table(before, pid, p.table.remove(handle), p.issued);
                assert(after.processes =~= expected.processes);
                lemma_table_change_keeps_wf(before, pid, p.table.remove(handle), p.issued);
            } else {
                assert(after.processes =~= before.processes);
            }
        }
        match dropped {
            Ok(_) => Ok(()),
            Err(_) => Err(ProcessError::InvalidHandle),
        }
    }

    /// The capability behind `handle` for an operation of `pid` that needs
    /// `needed`, or why the operation is refused.
    fn authorize(&self, pid: LocalProcessId, handle: Handle, needed: Permission) -> (r: Result<
        Capability,
        ProcessError,
    >)
        ensures
            r == authorized(self@, pid, handle, needed),
    {
        if !self.is_alive(pid) {
            return Err(ProcessError::NoSuchProcess);
        }
        match self.processes[pid.0 as usize].table.resolve(handle) {
            None => Err(ProcessError::InvalidHandle),
            Some(cap) => {
                if cap.perms.has(needed) {
                    Ok(cap)
                } else {
                    Err(ProcessError::PermissionDenied)
                }
            },
        }
    }

    /// Sends `payload` and the capabilities behind `caps` from process `pid`
    /// to the route of `target`. Needs `SEND` on `target`. A message to a
    /// closed route is dropped and reported as `RouteClosed`; one to a remote
    /// route is handed back to be framed for the peer.
    pub fn send(&mut self, pid: LocalProcessId, target: Handle, payload: Vec<u8>, caps: &Vec<Handle>)
        -> (r: Result<SendOutcome, ProcessError>)
        requires
            old(self).wf(),
        ensures
            final(self).wf(),
            r is Ok <==> send_check(old(self)@, pid, target, caps@) is Ok,
            r matches Err(e) ==> send_check(old(self)@, pid, target, caps@) == Err::<
                (Capability, Seq<Capability>),
                ProcessError,
            >(e) && final(self)@ == old(self)@,
            r matches Ok(outcome) ==> ({
                let (cap, exported) = send_check(old(self)@, pid, target, caps@)->Ok_0;
                match cap.route {
                    Route::Local { mailbox } => {
                        &&& final(self)@ == with_post(
                            old(self)@,
                            deliver_of(
                                old(self)@.post,
                                mailbox as int,
                                SignalModel::Message { payload: payload@, caps: exported },
                            ),
                        )
                        &&& outcome@ == (if is_open(old(self)@.post, mailbox as int) {
                            SendOutcomeModel::Delivered
                        } else {
                            SendOutcomeModel::RouteClosed
                        })
                    },
                    Route::Remote { peer, cap: remote } => {
                        &&& final(self)@ == old(self)@
                        &&& outcome@ == (SendOutcomeModel::Forward {
                            peer,
                            cap: remote,
                            payload: payload@,
                            caps: exported,
                        })
                    },
                }
            }),
    {
        let cap = match self.authorize(pid, target, Permission::Send) {
            Ok(cap) => cap,
            Err(e) => {
                return Err(e);
            },
        };
        let ghost table = self@.processes[pid.0 as int].table;
        let mut exported: Vec<Capability> = Vec::new();
        let mut i: usize = 0;
        while i < caps.len()
            invariant
                i <= caps@.len(),
                exported@.len() == i,
                self.wf(),
                self@ == old(self)@,
                is_alive(self@, pid),
                pid.0 < self.processes@.len(),
                authorized(self@, pid, target, Permission::Send) == Ok::<Capability, ProcessError>(
                    cap,
                ),
                table == self@.processes[pid.0 as int].table,
                table == self.processes@[pid.0 as int].table@,
                forall|k: int| 0 <= k < i ==> table.contains_key(#[trigger] caps@[k]),
                forall|k: int| 0 <= k < i ==> exported@[k] == table[caps@[k]],
            decreases caps@.len() - i,
        {
            match self.processes[pid.0 as usize].table.resolve(caps[i]) {
                None => {
                    assert(!table.contains_key(caps@[i as int]));
                    return Err(ProcessError::InvalidHandle);
                },
                Some(c) => {
                    exported.push(c);
                },
            }
            i = i + 1;
        }
        proof {
            assert(exported@ =~= caps_of(table, caps@)->Some_0);
        }
        match cap.route {
            Route::Local { mailbox } => {
                let ghost before = self@;
                let ghost signal = SignalModel::Message { payload: payload@, caps: exported@ };
                let queued = self.post.deliver(mailbox, Signal::Message { payload, caps: exported });
                proof {
                    let after = self@;
                    assert(after.processes =~= before.processes);
                    lemma_deliver_keeps_wf(before.post, mailbox as int, signal);
                    lemma_post_change_keeps_wf(before, after.post);
                }
                if queued {
                    Ok(SendOutcome::Delivered)
                } else {
                    Ok(SendOutcome::RouteClosed)
                }
            },
            Route::Remote { peer, cap: remote } => Ok(
                SendOutcome::Forward { peer, cap: remote, payload, caps: exported },
            ),
        }
    }

    /// Installs a watch for `mailbox` of process `pid` on the route of
    /// `subject`. Needs `MONITOR` on `subject`. When the route is destroyed, or
    /// at once where it is closed already, `mailbox` gets a `Down` with the
    /// capability behind `subject`.
    pub fn monitor(&mut self, pid: LocalProcessId, mailbox: usize, subject: Handle) -> (r: Result<
        Dispatch,
        ProcessError,
    >)
        requires
            old(self).wf(),
        ensures
            final(self).wf(),
            r == monitor_result(old(self)@, pid, mailbox, subject),
            final(self)@ == monitor_of(old(self)@, pid, mailbox, subject),
    {
        if !self.is_alive(pid) {
            return Err(ProcessError::NoSuchProcess);
        }
        if !self.owns(pid, mailbox) {
            return Err(ProcessError::NotOwner);
        }
        let cap = match self.authorize(pid, subject, Permission::Monitor) {
            Ok(cap) => cap,
            Err(e) => {
                return Err(e);
            },
        };
        match cap.route {
            Route::Local { .. } => {
                let ghost before = self@;
                self.post.watch(cap, mailbox);
                proof {
                    let after = self@;
                    assert(after.processes =~= before.processes);
                    lemma_watch_keeps_wf(before.post, cap, mailbox);
                    lemma_watch_shape(before.post, cap, mailbox);
                    lemma_post_change_keeps_wf(before, after.post);
                }
                Ok(Dispatch::Local)
            },
            Route::Remote { peer, cap: remote } => Ok(Dispatch::Remote { peer, cap: remote }),
        }
    }

    /// Ends process `target`, whoever asks: it is marked dead, its mailboxes
    /// are drained and closed, the watches on them fire, and its table is
    /// released. Ending a process that is dead or was never spawned changes
    /// nothing.
    pub fn kill_process(&mut self, target: LocalProcessId)
        requires
            old(self).wf(),
        ensures
            final(self).wf(),
            final(self)@ == (if is_alive(old(self)@, target) {
                kill_process_of(old(self)@, target.0 as int)
            } else {
                old(self)@
            }),
            is_alive(old(self)@, target) ==> live_count(final(self)@.processes) == live_count(
                old(self)@.processes,
            ) - 1,
    {
        if !self.is_alive(target) {
            return ;
        }
        let ghost before = self@;
        let index = target.0 as usize;
        let state = self.processes[index].state.step(ProcessEvent::Kill);
        self.processes[index].state = state;
        self.post.kill_group(index);
        self.processes[index].table.release_all();
        let state = self.processes[index].state.step(ProcessEvent::Drained);
        self.processes[index].state = state;
        proof {
            let after = self@;
            let expected = kill_process_of(before, target.0 as int);
            assert(after.processes =~= expected.processes);
            lemma_kill_process_keeps_wf(before, target.0 as int);
        }
        self.live = self.live - 1;
    }

    /// Ends the process that owns the route of `target`, on behalf of process
    /// `pid`. Needs `KILL` on `target`.
    pub fn kill(&mut self, pid: LocalProcessId, target: Handle) -> (r: Result<
        Dispatch,
        ProcessError,
    >)
        requires
            old(self).wf(),
        ensures
            final(self).wf(),
            r == kill_result(old(self)@, pid, target),
            final(self)@ == kill_by_of(old(self)@, pid, target),
    {
        let cap = match self.authorize(pid, target, Permission::Kill) {
            Ok(cap) => cap,
            Err(e) => {
                return Err(e);
            },
        };
        match cap.route {
            Route::Local { mailbox } => {
                match self.post.group_of(mailbox) {
                    Some(group) => {
                        proof {
                            assert(old(self)@.post[mailbox as int].group < old(
                                self,
                            )@.processes.len());
                        }
                        self.kill_process(LocalProcessId(group as u32));
                    },
                    None => {},
                }
                Ok(Dispatch::Local)
            },
            Route::Remote { peer, cap: remote } => Ok(Dispatch::Remote { peer, cap: remote }),
        }
    }

    /// Takes the oldest signal of `mailbox` for process `pid`, if one waits.
    /// The capabilities that came with it are entered into the table of `pid`
    /// before the signal is handed over.
    pub fn try_recv(&mut self, pid: LocalProcessId, mailbox: usize) -> (r: Result<
        Option<Received>,
        ProcessError,
    >)
        requires
            old(self).wf(),
        ensures
            final(self).wf(),
            !is_alive(old(self)@, pid) ==> r matches Err(ProcessError::NoSuchProcess),
            is_alive(old(self)@, pid) && !owns(old(self)@, pid, mailbox) ==> r matches Err(
                ProcessError::NotOwner,
            ),
            is_alive(old(self)@, pid) && owns(old(self)@, pid, mailbox) ==> r is Ok,
            r is Err ==> final(self)@ == old(self)@,
            r matches Ok(got) ==> (got is Some <==> has_signal(old(self)@, mailbox)),
            r matches Ok(None) ==> final(self)@ == old(self)@,
            r matches Ok(Some(signal)) ==> final(self)@ == receive_of(old(self)@, pid, mailbox)
                && signal@ == received_of(
                old(self)@.post[mailbox as int].queue[0],
                old(self)@.processes[pid.0 as int].issued,
            ),
    {
        if !self.is_alive(pid) {
            return Err(ProcessError::NoSuchProcess);
        }
        if !self.owns(pid, mailbox) {
            return Err(ProcessError::NotOwner);
        }
        let ghost before = self@;
        let taken = self.post.take(mailbox);
        match taken {
            None => {
                proof {
                    assert(self@.processes =~= before.processes);
                }
                Ok(None)
            },
            Some(signal) => {
                let ghost p = before.processes[pid.0 as int];
                let ghost model = signal@;
                let received = match signal {
                    Signal::Message { payload, caps } => {
                        let handles = self.processes[pid.0 as usize].table.import_all(&caps);
                        Received::Message { payload, caps: handles }
                    },
                    Signal::Down { subject } => {
                        let mut caps: Vec<Capability> = Vec::new();
                        caps.push(subject);
                        assert(caps@ =~= seq![subject]);
                        let handles = self.processes[pid.0 as usize].table.import_all(&caps);
                        Received::Down { subject: handles[0] }
                    },
                };
                proof {
                    let after = self@;
                    let caps = caps_in(model);
                    let expected = receive_of(before, pid, mailbox);
                    assert(after.processes =~= expected.processes);
                    lemma_take_keeps_wf(before.post, mailbox as int);
                    lemma_import_all_keeps_issued(p.table, p.issued, caps);
                    lemma_table_change_keeps_wf(
                        before,
                        pid,
                        import_all_of(p.table, p.issued, caps),
                        p.issued + caps.len(),
                    );
                    lemma_post_change_keeps_wf(
                        with_table(
                            before,
                            pid,
                            import_all_of(p.table, p.issued, caps),
                            p.issued + caps.len(),
                        ),
                        after.post,
                    );
                }
                Ok(Some(received))
            },
        }
    }

    /// Looks for a signal in the mailboxes of `mailboxes`, which all belong to
    /// process `pid`, and takes one from the first that holds any.
    pub fn poll(&mut self, pid: LocalProcessId, mailboxes: &Vec<usize>) -> (r: Result<
        Poll,
        ProcessError,
    >)
        requires
            old(self).wf(),
        ensures
            final(self).wf(),
            !is_alive(old(self)@, pid) ==> r matches Err(ProcessError::NoSuchProcess),
            is_alive(old(self)@, pid) && mailboxes@.len() == 0 ==> r matches Ok(Poll::NoMailboxes),
            is_alive(old(self)@, pid) && mailboxes@.len() > 0 && !all_owned(
                old(self)@,
                pid,
                mailboxes@,
            ) ==> r matches Err(ProcessError::NotOwner),
            is_alive(old(self)@, pid) && mailboxes@.len() > 0 && all_owned(
                old(self)@,
                pid,
                mailboxes@,
            ) ==> r is Ok && !(r matches Ok(Poll::NoMailboxes)),
            r is Err ==> final(self)@ == old(self)@,
            r matches Ok(Poll::NoMailboxes) ==> final(self)@ == old(self)@,
            r matches Ok(Poll::Pending) ==> final(self)@ == old(self)@ && forall|k: int|
                0 <= k < mailboxes@.len() ==> !has_signal(old(self)@, #[trigger] mailboxes@[k]),
            r matches Ok(Poll::Ready { index, signal }) ==> first_ready(
                old(self)@,
                mailboxes@,
                index as int,
            ) && final(self)@ == receive_of(old(self)@, pid, mailboxes@[index as int]) && signal@
                == received_of(
                old(self)@.post[mailboxes@[index as int] as int].queue[0],
                old(self)@.processes[pid.0 as int].issued,
            ),
    {
        if !self.is_alive(pid) {
            return Err(ProcessError::NoSuchProcess);
        }
        if mailboxes.len() == 0 {
            return Ok(Poll::NoMailboxes);
        }
        let mut i: usize = 0;
        while i < mailboxes.len()
            invariant
                i <= mailboxes@.len(),
                self@ == old(self)@,
                self.wf(),
                is_alive(self@, pid),
                mailboxes@.len() > 0,
                forall|k: int| 0 <= k < i ==> owns(self@, pid, #[trigger] mailboxes@[k]),
            decreases mailboxes@.len() - i,
        {
            if !self.owns(pid, mailboxes[i]) {
                return Err(ProcessError::NotOwner);
            }
            i = i + 1;
        }
        let mut i: usize = 0;
        while i < mailboxes.len()
            invariant
                i <= mailboxes@.len(),
                self@ == old(self)@,
                self.wf(),
                is_alive(self@, pid),
                forall|k: int| 0 <= k < mailboxes@.len() ==> owns(self@, pid, #[trigger] mailboxes@[k]),
                forall|k: int| 0 <= k < i ==> !has_signal(self@, #[trigger] mailboxes@[k]),
            decreases mailboxes@.len() - i,
        {
            if self.post.pending(mailboxes[i]) > 0 {
                match self.try_recv(pid, mailboxes[i]) {
                    Ok(Some(signal)) => {
                        return Ok(Poll::Ready { index: i, signal });
                    },
                    Ok(None) => {
                        return Ok(Poll::Pending);
                    },
                    Err(e) => {
                        return Err(e);
                    },
                }
            }
            i = i + 1;
        }
        Ok(Poll::Pending)
    }
}

/// A table's refusal as the factory reports it.
pub open spec fn table_result(r: Result<Capability, TableError>) -> Result<Capability, ProcessError> {
    match r {
        Ok(cap) => Ok(cap),
        Err(TableError::InvalidHandle) => Err(ProcessError::InvalidHandle),
        Err(TableError::PermissionDenied) => Err(ProcessError::PermissionDenied),
    }
}

/// Whether every mailbox of `mailboxes` belongs to process `pid`.
pub open spec fn all_owned(f: FactoryModel, pid: LocalProcessId, mailboxes: Seq<usize>) -> bool {
    forall|k: int| 0 <= k < mailboxes.len() ==> owns(f, pid, #[trigger] mailboxes[k])
}

/// What `monitor` answers.
pub open spec fn monitor_result(f: FactoryModel, pid: LocalProcessId, mailbox: usize, subject: Handle)
    -> Result<Dispatch, ProcessError> {
    if !is_alive(f, pid) {
        Err(ProcessError::NoSuchProcess)
    } else if !owns(f, pid, mailbox) {
        Err(ProcessError::NotOwner)
    } else {
        match authorized(f, pid, subject, Permission::Monitor) {
            Err(e) => Err(e),
            Ok(cap) => match cap.route {
                Route::Local { .. } => Ok(Dispatch::Local),
                Route::Remote { peer, cap: remote } => Ok(Dispatch::Remote { peer, cap: remote }),
            },
        }
    }
}

/// The factory after `monitor`: where it answers `Ok`, the watch is installed
/// at the post office (see [`watch_of`]); else nothing changes.
pub open spec fn monitor_of(f: FactoryModel, pid: LocalProcessId, mailbox: usize, subject: Handle)
    -> FactoryModel {
    if monitor_result(f, pid, mailbox, subject) is Ok {
        with_post(f, watch_of(f.post, f.processes[pid.0 as int].table[subject], mailbox))
    } else {
        f
    }
}

/// What `kill` answers.
pub open spec fn kill_result(f: FactoryModel, pid: LocalProcessId, target: Handle) -> Result<
    Dispatch,
    ProcessError,
> {
    match authorized(f, pid, target, Permission::Kill) {
        Err(e) => Err(e),
        Ok(cap) => match cap.route {
            Route::Local { .. } => Ok(Dispatch::Local),
            Route::Remote { peer, cap: remote } => Ok(Dispatch::Remote { peer, cap: remote }),
        },
    }
}

/// The factory after `kill`: where the capability is authorized and leads to
/// a mailbox of a process that is alive, that process is killed; else nothing
/// changes.
pub open spec fn kill_by_of(f: FactoryModel, pid: LocalProcessId, target: Handle) -> FactoryModel {
    match authorized(f, pid, target, Permission::Kill) {
        Err(_) => f,
        Ok(cap) => match cap.route {
            Route::Local { mailbox } => if mailbox < f.post.len() && f.processes[f.post[mailbox as int].group as int].state.spec_is_alive() {
                kill_process_of(f, f.post[mailbox as int].group as int)
            } else {
                f
            },
            Route::Remote { .. } => f,
        },
    }
}

/// Replacing a process by one that is alive exactly when the old one was
/// keeps the number of live processes.
pub proof fn lemma_live_count_update(processes: Seq<ProcessModel>, index: int, p: ProcessModel)
    requires
        0 <= index < processes.len(),
    ensures
        live_count(processes.update(index, p)) == live_count(processes) + (if p.state.spec_is_alive() {
            1int
        } else {
            0int
        }) - (if processes[index].state.spec_is_alive() {
            1int
        } else {
            0int
        }),
    decreases processes.len(),
{
    let updated = processes.update(index, p);
    if index == processes.len() - 1 {
        assert(updated.drop_last() =~= processes.drop_last());
    } else {
        assert(updated.drop_last() =~= processes.drop_last().update(index, p));
        lemma_live_count_update(processes.drop_last(), index, p);
    }
}

/// A change of the limit alone keeps the invariant.
pub proof fn lemma_same_tables_keep_wf(before: FactoryModel, after: FactoryModel)
    requires
        factory_wf(before),
        after.post == before.post,
        after.processes == before.processes,
    ensures
        factory_wf(after),
{
}

/// A change that touches no mailbox and keeps each process's liveness and
/// table keeps the invariant.
pub proof fn lemma_same_liveness_keeps_wf(before: FactoryModel, after: FactoryModel)
    requires
        factory_wf(before),
        after.post == before.post,
        after.limit == before.limit,
        after.processes.len() == before.processes.len(),
        live_count(after.processes) == live_count(before.processes),
        forall|p: int|
            0 <= p < before.processes.len() ==> (#[trigger] after.processes[p]).table
                == before.processes[p].table && after.processes[p].issued
                == before.processes[p].issued && after.processes[p].state.spec_is_alive()
                == before.processes[p].state.spec_is_alive() && (after.processes[p].state is Dead
                <==> before.processes[p].state is Dead),
    ensures
        factory_wf(after),
{
    assert forall|p: int, h: Handle|
        0 <= p < after.processes.len() && #[trigger] after.processes[p].table.contains_key(
            h,
        ) implies h.0 < after.processes[p].issued by {
        assert(before.processes[p].table.contains_key(h));
    }
    assert forall|p: int|
        0 <= p < after.processes.len() && !(#[trigger] after.processes[p]).state.spec_is_alive() implies after.processes[p].state is Dead
        && after.processes[p].table == Map::<Handle, Capability>::empty() by {
        assert(!before.processes[p].state.spec_is_alive());
    }
    assert forall|m: int| 0 <= m < after.post.len() && (#[trigger] after.post[m]).open implies after.processes[after.post[m].group as int].state.spec_is_alive() by {
        assert(before.post[m].open);
        assert(before.processes[before.post[m].group as int].state.spec_is_alive());
    }
}

/// Replacing the table of a live process by one whose handles were all issued
/// keeps the invariant.
pub proof fn lemma_table_change_keeps_wf(
    f: FactoryModel,
    pid: LocalProcessId,
    table: Map<Handle, Capability>,
    issued: nat,
)
    requires
        factory_wf(f),
        is_alive(f, pid),
        forall|h: Handle| table.contains_key(h) ==> h.0 < issued,
    ensures
        factory_wf(with_table(f, pid, table, issued)),
        live_count(with_table(f, pid, table, issued).processes) == live_count(f.processes),
{
    let after = with_table(f, pid, table, issued);
    lemma_live_count_update(
        f.processes,
        pid.0 as int,
        ProcessModel { table, issued, ..f.processes[pid.0 as int] },
    );
    assert forall|p: int, h: Handle|
        0 <= p < after.processes.len() && #[trigger] after.processes[p].table.contains_key(
            h,
        ) implies h.0 < after.processes[p].issued by {
        if p != pid.0 {
            assert(f.processes[p].table.contains_key(h));
        }
    }
    assert forall|p: int|
        0 <= p < after.processes.len() && !(#[trigger] after.processes[p]).state.spec_is_alive() implies after.processes[p].state is Dead
        && after.processes[p].table == Map::<Handle, Capability>::empty() by {
        assert(!f.processes[p].state.spec_is_alive());
    }
    assert forall|m: int| 0 <= m < after.post.len() && (#[trigger] after.post[m]).open implies after.processes[after.post[m].group as int].state.spec_is_alive() by {
        assert(f.post[m].open);
        assert(f.processes[f.post[m].group as int].state.spec_is_alive());
    }
}

/// After capabilities were entered under the handles issued next, every
/// handle of the table was issued.
pub proof fn lemma_import_all_keeps_issued(
    table: Map<Handle, Capability>,
    issued: nat,
    caps: Seq<Capability>,
)
    requires
        forall|h: Handle| table.contains_key(h) ==> h.0 < issued,
    ensures
        forall|h: Handle|
            import_all_of(table, issued, caps).contains_key(h) ==> h.0 < issued + caps.len(),
{
}

/// Replacing the post office by one that has the same mailboxes with the same
/// groups, opens none, and is well formed keeps the invariant.
pub proof fn lemma_post_change_keeps_wf(f: FactoryModel, post: Seq<MailboxModel>)
    requires
        factory_wf(f),
        post_wf(post),
        post.len() == f.post.len(),
        forall|m: int|
            0 <= m < post.len() ==> (#[trigger] post[m]).group == f.post[m].group && (post[m].open
                ==> f.post[m].open),
    ensures
        factory_wf(with_post(f, post)),
{
    let after = with_post(f, post);
    assert forall|m: int| 0 <= m < after.post.len() implies (#[trigger] after.post[m]).group
        < after.processes.len() by {
        assert(f.post[m].group < f.processes.len());
    }
    assert forall|m: int| 0 <= m < after.post.len() && (#[trigger] after.post[m]).open implies after.processes[after.post[m].group as int].state.spec_is_alive() by {
        assert(f.post[m].open);
    }
}

/// Killing a live process keeps the invariant and lowers the number of live
/// processes by one.
pub proof fn lemma_kill_process_keeps_wf(f: FactoryModel, target: int)
    requires
        factory_wf(f),
        0 <= target < f.processes.len(),
        f.processes[target].state.spec_is_alive(),
    ensures
        factory_wf(kill_process_of(f, target)),
        live_count(kill_process_of(f, target).processes) == live_count(f.processes) - 1,
{
    let after = kill_process_of(f, target);
    let dead = ProcessModel {
        state: ProcessState::Dead,
        table: Map::empty(),
        ..f.processes[target]
    };
    lemma_live_count_update(f.processes, target, dead);
    lemma_kill_keeps_wf(f.post, target as usize);
    lemma_kill_len(f.post, target as usize);
    assert forall|p: int, h: Handle|
        0 <= p < after.processes.len() && #[trigger] after.processes[p].table.contains_key(
            h,
        ) implies h.0 < after.processes[p].issued by {
        if p != target {
            assert(f.processes[p].table.contains_key(h));
        }
    }
    assert forall|p: int|
        0 <= p < after.processes.len() && !(#[trigger] after.processes[p]).state.spec_is_alive() implies after.processes[p].state is Dead
        && after.processes[p].table == Map::<Handle, Capability>::empty() by {
        if p != target {
            assert(!f.processes[p].state.spec_is_alive());
        }
    }
    assert forall|m: int| 0 <= m < after.post.len() implies (#[trigger] after.post[m]).group
        < after.processes.len() && (after.post[m].open
        ==> after.processes[after.post[m].group as int].state.spec_is_alive()) by {
        lemma_kill_closes_group(f.post, target as usize, m);
        assert(f.post[m].group < f.processes.len());
        if after.post[m].open {
            assert(f.post[m].open);
        }
    }
}

/// Installing a watch changes neither the number of mailboxes nor the group or
/// the state of any of them.
pub proof fn lemma_watch_shape(post: Seq<MailboxModel>, subject: Capability, watcher: usize)
    ensures
        watch_of(post, subject, watcher).len() == post.len(),
        forall|m: int|
            0 <= m < post.len() ==> (#[trigger] watch_of(post, subject, watcher)[m]).group
                == post[m].group && watch_of(post, subject, watcher)[m].open == post[m].open,
{
}

} // verus!
