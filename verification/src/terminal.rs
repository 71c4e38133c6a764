//! The terminal factory: a service that makes terminals on request.
//!
//! For each request the factory spawns a sink process that stands for the new
//! terminal. The factory holds the capability that a spawner gets, with every
//! permission; the requester gets less: a capability to the same mailbox that
//! lets it send to the terminal and end it, and nothing else.

use vstd::prelude::*;
use crate::capability::{export_of, import_of, Handle, Route};
use crate::permissions::{Permission, Permissions};
use crate::process::{
    is_alive, live_count, spawn_cap, spawn_of, with_table, FactoryModel, LocalProcessId,
    ProcessError, ProcessFactory, ProcessMetadata,
};

verus! {

/// What a requester is told of its new terminal.
#[derive(Clone, Copy, Debug, PartialEq, Eq, Structural)]
pub struct Created {
    /// The sink process that stands for the terminal.
    pub child: LocalProcessId,
    /// The handle under which the factory holds the sink, in its own table.
    pub parent: Handle,
    /// The handle under which the requester holds the sink, in its table.
    pub cap: Handle,
}

/// Whether `meta` is what a sink process says of itself.
pub open spec fn is_sink(meta: ProcessMetadata) -> bool {
    &&& meta.name is Some
    &&& meta.name->Some_0@ == "TerminalSink"@
    &&& meta.description is Some
    &&& meta.description->Some_0@ == "An instance of a terminal. Accepts TerminalUpdate."@
}

/// Whether a request of `requester` to the factory process `service` is
/// served: both have to be alive, and a process has to be left to spawn.
pub open spec fn create_check(f: FactoryModel, service: LocalProcessId, requester: LocalProcessId)
    -> Result<(), ProcessError> {
    if !is_alive(f, service) || !is_alive(f, requester) {
        Err(ProcessError::NoSuchProcess)
    } else if !(live_count(f.processes) < f.limit && f.processes.len() < u32::MAX) {
        Err(ProcessError::SpawnLimit)
    } else {
        Ok(())
    }
}

/// The factory after the sink was spawned with `meta` and `service` entered
/// the spawner's capability into its table.
pub open spec fn held_of(f: FactoryModel, service: LocalProcessId, meta: ProcessMetadata)
    -> FactoryModel {
    let spawned = spawn_of(f, meta, None);
    let p = spawned.processes[service.0 as int];
    with_table(
        spawned,
        service,
        import_of(p.table, Handle(p.issued as usize), spawn_cap(f)),
        p.issued + 1,
    )
}

/// The factory after a request that was served: the sink is spawned,
/// `service` holds it with every permission, and `requester` holds what
/// `service` exported with `perms`, under the next handle of its table.
pub open spec fn created_of(
    f: FactoryModel,
    service: LocalProcessId,
    requester: LocalProcessId,
    meta: ProcessMetadata,
    perms: Permissions,
) -> FactoryModel {
    let held = held_of(f, service, meta);
    let parent = Handle(f.processes[service.0 as int].issued as usize);
    let q = held.processes[requester.0 as int];
    with_table(
        held,
        requester,
        import_of(
            q.table,
            Handle(q.issued as usize),
            export_of(held.processes[service.0 as int].table, parent, perms)->Ok_0,
        ),
        q.issued + 1,
    )
}

/// The native terminal emulator factory service.
pub struct TerminalFactory;

impl TerminalFactory {
    /// The name under which the service is registered.
    pub fn name() -> (name: String)
        ensures
            name@ == "hearth.terminal.TerminalFactory"@,
    {
        "hearth.terminal.TerminalFactory".to_owned()
    }

    /// What the factory process says of itself.
    pub fn get_process_metadata() -> (meta: ProcessMetadata)
        ensures
            meta.description is Some,
            meta.description->Some_0@
                == "The native terminal emulator factory service. Accepts FactoryRequest."@,
    {
        ProcessMetadata {
            name: None,
            description: Some(
                "The native terminal emulator factory service. Accepts FactoryRequest.".to_owned(),
            ),
            authors: None,
            repository: None,
            homepage: None,
            license: None,
        }
    }

    /// What a sink process says of itself.
    pub fn sink_metadata() -> (meta: ProcessMetadata)
        ensures
            is_sink(meta),
    {
        ProcessMetadata {
            name: Some("TerminalSink".to_owned()),
            description: Some("An instance of a terminal. Accepts TerminalUpdate.".to_owned()),
            authors: None,
            repository: None,
            homepage: None,
            license: None,
        }
    }

    /// The permissions that a requester gets on its terminal: `SEND` and
    /// `KILL`.
    pub fn sink_permissions() -> (perms: Permissions)
        ensures
            perms@ == set![Permission::Send, Permission::Kill],
            perms.valid(),
    {
        let perms = Permissions::send().union(Permissions::kill());
        assert(perms@ =~= set![Permission::Send, Permission::Kill]);
        perms
    }

    /// Serves a request of process `requester` to the factory process
    /// `service` for a new terminal. A sink process is spawned; `service`
    /// enters the spawner's capability into its table, and what it exports of
    /// that entry with `SEND` and `KILL` is entered into the table of
    /// `requester` under a fresh handle. So the requester holds a capability
    /// to the first mailbox of the sink that grants `SEND` and `KILL` and
    /// neither `MONITOR` nor `LINK`. Where the request is refused nothing
    /// changes.
    pub fn on_request(factory: &mut ProcessFactory, service: LocalProcessId, requester: LocalProcessId)
        -> (r: Result<Created, ProcessError>)
        requires
            old(factory).wf(),
        ensures
            final(factory).wf(),
            r is Ok <==> create_check(old(factory)@, service, requester) is Ok,
            r matches Err(e) ==> create_check(old(factory)@, service, requester) == Err::<
                (),
                ProcessError,
            >(e) && final(factory)@ == old(factory)@,
            r matches Ok(created) ==> ({
                let before = old(factory)@;
                let after = final(factory)@;
                let table = after.processes[requester.0 as int].table;
                &&& created.child.0 == before.processes.len()
                &&& created.parent.0 == before.processes[service.0 as int].issued
                &&& !before.processes[requester.0 as int].table.contains_key(created.cap)
                &&& table.contains_key(created.cap)
                &&& table[created.cap].route == (Route::Local {
                    mailbox: before.post.len() as usize,
                })
                &&& table[created.cap].perms@ == set![Permission::Send, Permission::Kill]
                &&& exists|meta: ProcessMetadata, perms: Permissions|
                    is_sink(meta) && perms@ == set![Permission::Send, Permission::Kill] && after
                        == created_of(before, service, requester, meta, perms)
            }),
    {
        if !factory.is_alive(service) || !factory.is_alive(requester) {
            return Err(ProcessError::NoSuchProcess);
        }
        let ghost before = factory@;
        let meta = TerminalFactory::sink_metadata();
        let ghost kept = meta;
        let spawned = match factory.spawn(meta, None) {
            Ok(spawned) => spawned,
            Err(e) => {
                return Err(e);
            },
        };
        let ghost grown = factory@;
        assert(is_alive(grown, service) && is_alive(grown, requester));
        let parent = match factory.import(service, spawned.cap) {
            Ok(parent) => parent,
            Err(e) => {
                return Err(e);
            },
        };
        let ghost held = factory@;
        assert(held == held_of(before, service, kept));
        assert(is_alive(held, service) && is_alive(held, requester));
        let perms = TerminalFactory::sink_permissions();
        proof {
            Permissions::lemma_spec_all();
            assert(held.processes[service.0 as int].table.contains_key(parent));
            assert(held.processes[service.0 as int].table[parent] == spawn_cap(before));
            assert(perms@.subset_of(Permissions::spec_all()@));
        }
        let cap = match factory.export(service, parent, perms) {
            Ok(cap) => cap,
            Err(e) => {
                return Err(e);
            },
        };
        let fresh = match factory.import(requester, cap) {
            Ok(fresh) => fresh,
            Err(e) => {
                return Err(e);
            },
        };
        proof {
            let after = factory@;
            let table = after.processes[requester.0 as int].table;
            old(factory).lemma_wf();
            assert(after == created_of(before, service, requester, kept, perms));
            assert(is_sink(kept) && perms@ == set![Permission::Send, Permission::Kill]);
            assert(fresh.0 >= before.processes[requester.0 as int].issued);
            assert(!before.processes[requester.0 as int].table.contains_key(fresh));
            assert(table.contains_key(fresh));
            assert(table[fresh] == cap);
            assert(cap.route == spawn_cap(before).route);
            assert(cap.perms == perms);
        }
        Ok(Created { child: spawned.pid, parent, cap: fresh })
    }
}

} // verus!
