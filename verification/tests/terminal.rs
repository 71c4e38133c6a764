use hearth::capability::{Capability, Route};
use hearth::permissions::{Permission, Permissions};
use hearth::process::{ProcessError, ProcessFactory, ProcessMetadata};
use hearth::terminal::TerminalFactory;

fn send_and_kill() -> Permissions {
    Permissions::send().union(Permissions::kill())
}

#[test]
fn terminal_requester_gets_send_and_kill_only() {
    let mut factory = ProcessFactory::new(8);
    let service = factory.spawn(TerminalFactory::get_process_metadata(), None).unwrap();
    let guest = factory.spawn(ProcessMetadata::default(), None).unwrap();
    let held_before = factory.table(guest.pid).unwrap().issued_count();
    let created = TerminalFactory::on_request(&mut factory, service.pid, guest.pid).unwrap();
    assert_eq!(created.child.0, 2);
    assert_eq!(created.cap.0, held_before);
    let sink = Route::Local { mailbox: 2 };
    // The factory holds the sink with every permission.
    assert_eq!(
        factory.table(service.pid).unwrap().resolve(created.parent),
        Some(Capability { route: sink, perms: Permissions::all() })
    );
    // The requester holds it with SEND and KILL.
    let cap = factory.table(guest.pid).unwrap().resolve(created.cap).unwrap();
    assert_eq!(cap, Capability { route: sink, perms: send_and_kill() });
    assert_eq!(cap.perms.bits(), 0b0101);
    assert!(cap.perms.has(Permission::Send));
    assert!(cap.perms.has(Permission::Kill));
    assert!(!cap.perms.has(Permission::Monitor));
    assert!(!cap.perms.has(Permission::Link));
    assert!(factory.owns(created.child, 2));
    let meta = factory.metadata(created.child).unwrap();
    assert_eq!(meta.name, Some("TerminalSink".to_string()));
    assert_eq!(
        meta.description,
        Some("An instance of a terminal. Accepts TerminalUpdate.".to_string())
    );
}

#[test]
fn terminal_capability_cannot_be_widened() {
    let mut factory = ProcessFactory::new(8);
    let service = factory.spawn(ProcessMetadata::default(), None).unwrap();
    let guest = factory.spawn(ProcessMetadata::default(), None).unwrap();
    let created = TerminalFactory::on_request(&mut factory, service.pid, guest.pid).unwrap();
    assert_eq!(
        factory.export(guest.pid, created.cap, Permissions::monitor()),
        Err(ProcessError::PermissionDenied)
    );
    assert_eq!(
        factory.export(guest.pid, created.cap, Permissions::all()),
        Err(ProcessError::PermissionDenied)
    );
    assert_eq!(
        factory.export(guest.pid, created.cap, Permissions::kill()),
        Ok(Capability { route: Route::Local { mailbox: 2 }, perms: Permissions::kill() })
    );
    // The requester may end its terminal.
    assert!(factory.is_alive(created.child));
    factory.kill(guest.pid, created.cap).unwrap();
    assert!(!factory.is_alive(created.child));
}

#[test]
fn terminal_request_is_refused_without_room_or_requester() {
    let mut factory = ProcessFactory::new(2);
    let service = factory.spawn(ProcessMetadata::default(), None).unwrap();
    let guest = factory.spawn(ProcessMetadata::default(), None).unwrap();
    assert_eq!(
        TerminalFactory::on_request(&mut factory, service.pid, guest.pid),
        Err(ProcessError::SpawnLimit)
    );
    assert_eq!(factory.table(guest.pid).unwrap().issued_count(), 0);
    assert_eq!(factory.table(service.pid).unwrap().issued_count(), 0);
    factory.kill_process(guest.pid);
    assert_eq!(
        TerminalFactory::on_request(&mut factory, service.pid, guest.pid),
        Err(ProcessError::NoSuchProcess)
    );
    assert_eq!(TerminalFactory::name(), "hearth.terminal.TerminalFactory");
}

#[test]
fn terminal_for_the_factory_itself() {
    let mut factory = ProcessFactory::new(8);
    let service = factory.spawn(ProcessMetadata::default(), None).unwrap();
    let created = TerminalFactory::on_request(&mut factory, service.pid, service.pid).unwrap();
    assert_eq!(created.parent.0, 0);
    assert_eq!(created.cap.0, 1);
    let table = factory.table(service.pid).unwrap();
    assert_eq!(table.resolve(created.parent).unwrap().perms, Permissions::all());
    assert_eq!(table.resolve(created.cap).unwrap().perms, send_and_kill());
}
