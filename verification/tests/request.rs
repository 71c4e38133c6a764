use hearth::capability::{Capability, Handle, Route};
use hearth::permissions::Permissions;
use hearth::process::{
    LocalProcessId, ProcessError, ProcessFactory, ProcessMetadata, Received, SendOutcome,
};
use hearth::request::request;

#[test]
fn request_sends_reply_capability_first() {
    let mut factory = ProcessFactory::new(8);
    let service = factory.spawn(ProcessMetadata::default(), None).unwrap();
    let client = factory.spawn(ProcessMetadata::default(), None).unwrap();
    let to_service = factory.import(client.pid, service.cap).unwrap();
    let extra = factory.make_capability(client.pid, client.mailbox, Permissions::kill()).unwrap();
    let pending = request(&mut factory, client.pid, to_service, b"what time".to_vec(), &vec![extra])
        .unwrap();
    assert!(matches!(pending.outcome, SendOutcome::Delivered));
    assert_eq!(pending.reply, 2);
    assert!(factory.owns(client.pid, pending.reply));
    let reply_cap = Capability { route: Route::Local { mailbox: 2 }, perms: Permissions::send() };
    assert_eq!(factory.table(client.pid).unwrap().resolve(pending.reply_cap), Some(reply_cap));
    match factory.try_recv(service.pid, service.mailbox) {
        Ok(Some(Received::Message { payload, caps })) => {
            assert_eq!(payload, b"what time");
            let table = factory.table(service.pid).unwrap();
            assert_eq!(caps.len(), 2);
            assert_eq!(table.resolve(caps[0]), Some(reply_cap));
            assert_eq!(
                table.resolve(caps[1]),
                Some(Capability {
                    route: Route::Local { mailbox: client.mailbox },
                    perms: Permissions::kill()
                })
            );
            // The service answers through the reply capability.
            factory.send(service.pid, caps[0], b"noon".to_vec(), &vec![]).unwrap();
        }
        other => panic!("unexpected: {:?}", other),
    }
    match factory.try_recv(client.pid, pending.reply) {
        Ok(Some(Received::Message { payload, .. })) => assert_eq!(payload, b"noon"),
        other => panic!("unexpected: {:?}", other),
    }
}

#[test]
fn request_ends_with_down_when_the_service_dies() {
    let mut factory = ProcessFactory::new(8);
    let service = factory.spawn(ProcessMetadata::default(), None).unwrap();
    let client = factory.spawn(ProcessMetadata::default(), None).unwrap();
    let to_service = factory.import(client.pid, service.cap).unwrap();
    let pending = request(&mut factory, client.pid, to_service, vec![], &vec![]).unwrap();
    factory.kill_process(service.pid);
    match factory.try_recv(client.pid, pending.reply) {
        Ok(Some(Received::Down { subject })) => {
            assert_eq!(factory.table(client.pid).unwrap().resolve(subject), Some(service.cap));
        }
        other => panic!("unexpected: {:?}", other),
    }
    // A request to the dead service is dropped, and its watch fires at once.
    let again = request(&mut factory, client.pid, to_service, vec![], &vec![]).unwrap();
    assert!(matches!(again.outcome, SendOutcome::RouteClosed));
    assert!(matches!(
        factory.try_recv(client.pid, again.reply),
        Ok(Some(Received::Down { .. }))
    ));
}

#[test]
fn request_is_refused_before_anything_changes() {
    let mut factory = ProcessFactory::new(8);
    let service = factory.spawn(ProcessMetadata::default(), None).unwrap();
    let client = factory.spawn(ProcessMetadata::default(), None).unwrap();
    let no_send = Capability {
        route: service.cap.route,
        perms: Permissions::monitor().union(Permissions::kill()),
    };
    let weak = factory.import(client.pid, no_send).unwrap();
    let strong = factory.import(client.pid, service.cap).unwrap();
    let mailboxes = factory.post().len();
    assert!(matches!(
        request(&mut factory, client.pid, weak, vec![], &vec![]),
        Err(ProcessError::PermissionDenied)
    ));
    assert!(matches!(
        request(&mut factory, client.pid, Handle(40), vec![], &vec![]),
        Err(ProcessError::InvalidHandle)
    ));
    assert!(matches!(
        request(&mut factory, client.pid, strong, vec![], &vec![Handle(40)]),
        Err(ProcessError::InvalidHandle)
    ));
    assert!(matches!(
        request(&mut factory, LocalProcessId(9), strong, vec![], &vec![]),
        Err(ProcessError::NoSuchProcess)
    ));
    assert_eq!(factory.post().len(), mailboxes);
    assert_eq!(factory.table(client.pid).unwrap().len(), 2);
    assert_eq!(factory.post().pending(service.mailbox), 0);
}

#[test]
fn request_needs_send_only() {
    let mut factory = ProcessFactory::new(8);
    let service = factory.spawn(ProcessMetadata::default(), None).unwrap();
    let client = factory.spawn(ProcessMetadata::default(), None).unwrap();
    let send_only = Capability { route: service.cap.route, perms: Permissions::send() };
    let to_service = factory.import(client.pid, send_only).unwrap();
    let extra = factory.make_capability(client.pid, client.mailbox, Permissions::kill()).unwrap();
    let pending =
        request(&mut factory, client.pid, to_service, b"ping".to_vec(), &vec![extra]).unwrap();
    assert!(matches!(pending.outcome, SendOutcome::Delivered));
    assert_eq!(pending.reply, 2);
    let reply_cap = Capability { route: Route::Local { mailbox: 2 }, perms: Permissions::send() };
    assert_eq!(factory.table(client.pid).unwrap().resolve(pending.reply_cap), Some(reply_cap));
    match factory.try_recv(service.pid, service.mailbox) {
        Ok(Some(Received::Message { payload, caps })) => {
            assert_eq!(payload, b"ping");
            assert_eq!(caps.len(), 2);
            let table = factory.table(service.pid).unwrap();
            assert_eq!(table.resolve(caps[0]), Some(reply_cap));
            assert_eq!(table.resolve(caps[1]).unwrap().perms, Permissions::kill());
            factory.send(service.pid, caps[0], b"pong".to_vec(), &vec![]).unwrap();
        }
        other => panic!("unexpected: {:?}", other),
    }
    match factory.try_recv(client.pid, pending.reply) {
        Ok(Some(Received::Message { payload, .. })) => assert_eq!(payload, b"pong"),
        other => panic!("unexpected: {:?}", other),
    }
    // Without MONITOR no watch was installed: when the service ends, nothing
    // arrives in the reply mailbox.
    let second = request(&mut factory, client.pid, to_service, vec![], &vec![]).unwrap();
    factory.kill_process(service.pid);
    assert_eq!(factory.post().pending(second.reply), 0);
    // And a request to the dead service is dropped without a `Down`.
    let third = request(&mut factory, client.pid, to_service, vec![], &vec![]).unwrap();
    assert!(matches!(third.outcome, SendOutcome::RouteClosed));
    assert_eq!(factory.post().pending(third.reply), 0);
}

#[test]
fn request_to_a_peer_is_handed_back_with_its_capabilities() {
    let mut factory = ProcessFactory::new(8);
    let client = factory.spawn(ProcessMetadata::default(), None).unwrap();
    let remote = Capability { route: Route::Remote { peer: 3, cap: 9 }, perms: Permissions::send() };
    let to_peer = factory.import(client.pid, remote).unwrap();
    let extra = factory.make_capability(client.pid, client.mailbox, Permissions::kill()).unwrap();
    let pending =
        request(&mut factory, client.pid, to_peer, b"far".to_vec(), &vec![extra]).unwrap();
    match pending.outcome {
        SendOutcome::Forward { peer, cap, payload, caps } => {
            assert_eq!((peer, cap), (3, 9));
            assert_eq!(payload, b"far");
            assert_eq!(
                caps,
                vec![
                    Capability {
                        route: Route::Local { mailbox: pending.reply },
                        perms: Permissions::send()
                    },
                    Capability {
                        route: Route::Local { mailbox: client.mailbox },
                        perms: Permissions::kill()
                    },
                ]
            );
        }
        other => panic!("unexpected: {:?}", other),
    }
}
