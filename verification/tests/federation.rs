use hearth::capability::{Capability, Route};
use hearth::directory::PeerDirectory;
use hearth::mailbox::Signal;
use hearth::peer::{FrameKind, Inbound, PeerConnection};
use hearth::permissions::Permissions;
use hearth::process::{
    Dispatch, PeerId, ProcessError, ProcessFactory, ProcessMetadata, Received, SendOutcome,
};

const ALICE: PeerId = PeerId(1);
const BOB: PeerId = PeerId(2);

#[test]
fn message_crosses_peers_with_its_capabilities() {
    let mut alice = ProcessFactory::new(8);
    let mut bob = ProcessFactory::new(8);
    let mut alice_to_bob = PeerConnection::new(BOB);
    let mut bob_to_alice = PeerConnection::new(ALICE);

    // Bob runs a service and offers it to Alice.
    let service = bob.spawn(ProcessMetadata::default(), None).unwrap();
    let send_only = Capability { route: service.cap.route, perms: Permissions::send() };
    let offered = bob_to_alice.export_cap(send_only);
    let at_alice = alice_to_bob.import_cap(offered).unwrap();

    // A process of Alice sends to it, with a capability to its own mailbox.
    let client = alice.spawn(ProcessMetadata::default(), None).unwrap();
    let target = alice.import(client.pid, at_alice).unwrap();
    let own = alice.make_capability(client.pid, client.mailbox, Permissions::send()).unwrap();
    let frame = match alice.send(client.pid, target, b"ping".to_vec(), &vec![own]) {
        Ok(SendOutcome::Forward { peer, cap, payload, caps }) => {
            assert_eq!(peer, BOB.0);
            alice_to_bob.frame(FrameKind::Message, cap, payload, &caps)
        }
        other => panic!("unexpected: {:?}", other),
    };

    // Bob takes the frame and hands the message to the service.
    match bob_to_alice.receive(frame) {
        Inbound::Deliver { route, signal } => assert!(bob.deliver(route, signal)),
        other => panic!("unexpected: {:?}", other),
    }
    let reply_to = match bob.try_recv(service.pid, service.mailbox) {
        Ok(Some(Received::Message { payload, caps })) => {
            assert_eq!(payload, b"ping");
            caps[0]
        }
        other => panic!("unexpected: {:?}", other),
    };

    // The service answers through the capability that came along.
    let frame = match bob.send(service.pid, reply_to, b"pong".to_vec(), &vec![]) {
        Ok(SendOutcome::Forward { peer, cap, payload, caps }) => {
            assert_eq!(peer, ALICE.0);
            bob_to_alice.frame(FrameKind::Message, cap, payload, &caps)
        }
        other => panic!("unexpected: {:?}", other),
    };
    match alice_to_bob.receive(frame) {
        Inbound::Deliver { route, signal } => {
            assert_eq!(route, Route::Local { mailbox: client.mailbox });
            assert!(alice.deliver(route, signal));
        }
        other => panic!("unexpected: {:?}", other),
    }
    match alice.try_recv(client.pid, client.mailbox) {
        Ok(Some(Received::Message { payload, .. })) => assert_eq!(payload, b"pong"),
        other => panic!("unexpected: {:?}", other),
    }
}

#[test]
fn lost_peer_brings_down_its_capabilities() {
    let mut alice = ProcessFactory::new(8);
    let mut conn = PeerConnection::new(BOB);
    let mut directory = PeerDirectory::new();
    directory.allocate();
    directory.allocate();
    let bob = directory.allocate().unwrap();
    assert_eq!(bob, BOB);

    let watcher = alice.spawn(ProcessMetadata::default(), None).unwrap();
    let remote = Capability { route: Route::Remote { peer: 2, cap: 0 }, perms: Permissions::all() };
    directory.set_reachable(bob, remote);
    let held = alice.import(watcher.pid, remote).unwrap();
    match alice.monitor(watcher.pid, watcher.mailbox, held) {
        Ok(Dispatch::Remote { peer: 2, cap: 0 }) => {
            assert_eq!(conn.monitor_remote(remote, watcher.mailbox), None);
        }
        other => panic!("unexpected: {:?}", other),
    }
    assert_eq!(alice.post().pending(watcher.mailbox), 0);

    let fired = conn.lost();
    directory.mark_dead(bob);
    alice.fire(&fired);
    assert_eq!(directory.find_peer(bob), None);
    match alice.try_recv(watcher.pid, watcher.mailbox) {
        Ok(Some(Received::Down { subject })) => {
            assert_eq!(alice.table(watcher.pid).unwrap().resolve(subject), Some(remote));
        }
        other => panic!("unexpected: {:?}", other),
    }
}

#[test]
fn inbound_signal_to_closed_or_remote_route_is_dropped() {
    let mut factory = ProcessFactory::new(8);
    let p = factory.spawn(ProcessMetadata::default(), None).unwrap();
    let message = || Signal::Message { payload: vec![1], caps: vec![] };
    assert!(factory.deliver(p.cap.route, message()));
    assert!(!factory.deliver(Route::Remote { peer: 1, cap: 1 }, message()));
    assert!(!factory.deliver(Route::Local { mailbox: 50 }, message()));
    factory.kill_process(p.pid);
    assert!(!factory.deliver(p.cap.route, message()));
    assert_eq!(factory.post().pending(p.mailbox), 0);
}

#[test]
fn shutdown_refuses_new_spawns() {
    let mut factory = ProcessFactory::new(8);
    let p = factory.spawn(ProcessMetadata::default(), None).unwrap();
    factory.shutdown();
    assert_eq!(
        factory.spawn(ProcessMetadata::default(), None),
        Err(ProcessError::SpawnLimit)
    );
    assert!(factory.is_alive(p.pid));
    assert_eq!(factory.live(), 1);
    factory.kill_process(p.pid);
    assert_eq!(
        factory.spawn(ProcessMetadata::default(), None),
        Err(ProcessError::SpawnLimit)
    );
    factory.set_limit(1);
    assert!(factory.spawn(ProcessMetadata::default(), None).is_ok());
}
