use hearth::capability::{Capability, Route};
use hearth::mailbox::{Signal, Watch};
use hearth::peer::{
    CapDescriptor, Export, Frame, FrameKind, Inbound, Origin, PeerConnection, PeerError,
};
use hearth::permissions::Permissions;
use hearth::process::PeerId;

const ALICE: PeerId = PeerId(1);
const BOB: PeerId = PeerId(2);

fn send_kill() -> Permissions {
    Permissions::send().union(Permissions::kill())
}

fn local(mailbox: usize, perms: Permissions) -> Capability {
    Capability { route: Route::Local { mailbox }, perms }
}

#[test]
fn export_allocates_an_id_once_per_capability() {
    let mut to_bob = PeerConnection::new(BOB);
    let cap = local(5, send_kill());
    let first = to_bob.export_cap(cap);
    let again = to_bob.export_cap(cap);
    let other = to_bob.export_cap(local(5, Permissions::send()));
    assert_eq!(first, CapDescriptor { origin: Origin::Sender, id: 0, perms: send_kill() });
    assert_eq!(again, first);
    assert_eq!(other, CapDescriptor { origin: Origin::Sender, id: 1, perms: Permissions::send() });
    assert_eq!(to_bob.export_entry(0), Some(Export { cap, refs: 2, live: true }));
    assert_eq!(to_bob.export_entry(2), None);
}

#[test]
fn import_makes_a_remote_stand_in() {
    let mut to_alice = PeerConnection::new(ALICE);
    let desc = CapDescriptor { origin: Origin::Sender, id: 7, perms: Permissions::send() };
    let cap = to_alice.import_cap(desc).unwrap();
    assert_eq!(
        cap,
        Capability { route: Route::Remote { peer: 1, cap: 7 }, perms: Permissions::send() }
    );
    to_alice.import_cap(desc).unwrap();
    assert_eq!(to_alice.import_count(7), 2);
    assert_eq!(to_alice.import_count(8), 0);
}

#[test]
fn forwarded_capability_comes_back_to_its_mailbox() {
    let mut to_bob = PeerConnection::new(BOB);
    let mut to_alice = PeerConnection::new(ALICE);
    let minted = local(5, send_kill());
    let sent = to_bob.export_cap(minted);
    let at_bob = to_alice.import_cap(sent).unwrap();
    assert_eq!(at_bob.route, Route::Remote { peer: 1, cap: sent.id });
    assert_eq!(at_bob.perms, send_kill());
    // Bob hands it back unchanged.
    let returned = to_alice.export_cap(at_bob);
    assert_eq!(returned.origin, Origin::Receiver);
    assert_eq!(to_bob.import_cap(returned), Ok(minted));
    // Bob hands it back demoted.
    let demoted = Capability { route: at_bob.route, perms: Permissions::send() };
    let returned = to_alice.export_cap(demoted);
    assert_eq!(to_bob.import_cap(returned), Ok(local(5, Permissions::send())));
    // Bob claims more than he was sent: he gets what was sent and no more.
    let forged = Capability { route: at_bob.route, perms: Permissions::all() };
    let returned = to_alice.export_cap(forged);
    assert_eq!(to_bob.import_cap(returned), Ok(minted));
    let disjoint = CapDescriptor { origin: Origin::Receiver, id: sent.id, perms: Permissions::monitor() };
    assert_eq!(to_bob.import_cap(disjoint), Ok(local(5, Permissions::empty())));
}

#[test]
fn unknown_or_released_exports_are_refused() {
    let mut to_bob = PeerConnection::new(BOB);
    let back = CapDescriptor { origin: Origin::Receiver, id: 0, perms: Permissions::send() };
    assert_eq!(to_bob.import_cap(back), Err(PeerError::UnknownCapability));
    let sent = to_bob.export_cap(local(5, Permissions::send()));
    assert_eq!(to_bob.import_cap(back), Ok(local(5, Permissions::send())));
    to_bob.on_release(sent.id);
    assert_eq!(to_bob.import_cap(back), Err(PeerError::UnknownCapability));
    assert_eq!(
        to_bob.export_entry(0),
        Some(Export { cap: local(5, Permissions::send()), refs: 0, live: false })
    );
    // A released index is not used again.
    let again = to_bob.export_cap(local(5, Permissions::send()));
    assert_eq!(again.id, 1);
}

#[test]
fn last_dropped_reference_sends_release() {
    let mut to_alice = PeerConnection::new(ALICE);
    let desc = CapDescriptor { origin: Origin::Sender, id: 3, perms: Permissions::send() };
    to_alice.import_cap(desc).unwrap();
    to_alice.import_cap(desc).unwrap();
    assert!(to_alice.release_import(3).is_none());
    match to_alice.release_import(3) {
        Some(Frame::Release { id }) => assert_eq!(id, 3),
        other => panic!("unexpected: {:?}", other),
    }
    assert!(to_alice.release_import(3).is_none());
    assert_eq!(to_alice.import_count(3), 0);
}

#[test]
fn frames_carry_descriptors_and_are_received() {
    let mut to_bob = PeerConnection::new(BOB);
    let mut to_alice = PeerConnection::new(ALICE);
    // Bob exports a mailbox of his; Alice holds it as a remote capability.
    let bobs = local(9, Permissions::send());
    let target = to_alice.export_cap(bobs);
    let held = to_bob.import_cap(target).unwrap();
    let id = match held.route {
        Route::Remote { cap, .. } => cap,
        other => panic!("unexpected: {:?}", other),
    };
    // Alice sends a message with a capability of her own and Bob's own back.
    let caps = vec![local(4, send_kill()), held];
    let frame = to_bob.frame(FrameKind::Message, id, b"hi".to_vec(), &caps);
    match &frame {
        Frame::Data { kind, target, payload, caps } => {
            assert_eq!(*kind, FrameKind::Message);
            assert_eq!(*target, 0);
            assert_eq!(payload, b"hi");
            assert_eq!(
                caps,
                &vec![
                    CapDescriptor { origin: Origin::Sender, id: 0, perms: send_kill() },
                    CapDescriptor { origin: Origin::Receiver, id: 0, perms: Permissions::send() },
                ]
            );
        }
        other => panic!("unexpected: {:?}", other),
    }
    match to_alice.receive(frame) {
        Inbound::Deliver { route, signal: Signal::Message { payload, caps } } => {
            assert_eq!(route, Route::Local { mailbox: 9 });
            assert_eq!(payload, b"hi");
            assert_eq!(
                caps,
                vec![
                    Capability { route: Route::Remote { peer: 1, cap: 0 }, perms: send_kill() },
                    bobs,
                ]
            );
        }
        other => panic!("unexpected: {:?}", other),
    }
    assert_eq!(to_alice.import_count(0), 1);
}

#[test]
fn bad_frames_are_rejected_whole() {
    let mut conn = PeerConnection::new(BOB);
    let mute = conn.export_cap(local(1, Permissions::monitor()));
    let open = conn.export_cap(local(2, Permissions::send()));
    let data = |target: u64, kind: FrameKind, caps: Vec<CapDescriptor>| Frame::Data {
        kind,
        target,
        payload: vec![1],
        caps,
    };
    let theirs = CapDescriptor { origin: Origin::Sender, id: 40, perms: Permissions::send() };
    let stale = CapDescriptor { origin: Origin::Receiver, id: 77, perms: Permissions::send() };
    assert!(matches!(
        conn.receive(data(9, FrameKind::Message, vec![])),
        Inbound::Rejected(PeerError::UnknownCapability)
    ));
    assert!(matches!(
        conn.receive(data(mute.id, FrameKind::Message, vec![])),
        Inbound::Rejected(PeerError::PermissionDenied)
    ));
    assert!(matches!(
        conn.receive(data(open.id, FrameKind::Signal, vec![])),
        Inbound::Rejected(PeerError::Malformed)
    ));
    assert!(matches!(
        conn.receive(data(open.id, FrameKind::Message, vec![theirs, stale])),
        Inbound::Rejected(PeerError::UnknownCapability)
    ));
    assert_eq!(conn.import_count(40), 0);
    match conn.receive(data(mute.id, FrameKind::Signal, vec![theirs])) {
        Inbound::Deliver { route, signal: Signal::Down { subject } } => {
            assert_eq!(route, Route::Local { mailbox: 1 });
            assert_eq!(subject.route, Route::Remote { peer: 2, cap: 40 });
        }
        other => panic!("unexpected: {:?}", other),
    }
    assert!(matches!(conn.receive(Frame::Release { id: open.id }), Inbound::Released { id: 1 }));
    assert!(matches!(
        conn.receive(data(open.id, FrameKind::Message, vec![])),
        Inbound::Rejected(PeerError::UnknownCapability)
    ));
}

#[test]
fn lost_transport_fires_remote_monitors() {
    let mut conn = PeerConnection::new(BOB);
    let theirs = Capability { route: Route::Remote { peer: 2, cap: 3 }, perms: Permissions::all() };
    let other_peer = Capability { route: Route::Remote { peer: 5, cap: 3 }, perms: Permissions::all() };
    assert_eq!(conn.monitor_remote(theirs, 10), None);
    assert_eq!(conn.monitor_remote(theirs, 10), None);
    assert_eq!(conn.monitor_remote(theirs, 11), None);
    assert_eq!(
        conn.monitor_remote(other_peer, 10),
        Some(Watch { watcher: 10, subject: other_peer })
    );
    conn.export_cap(local(1, Permissions::send()));
    let fired = conn.lost();
    assert_eq!(
        fired,
        vec![Watch { watcher: 10, subject: theirs }, Watch { watcher: 11, subject: theirs }]
    );
    assert!(!conn.is_connected());
    assert_eq!(conn.export_entry(0), None);
    assert_eq!(conn.monitor_remote(theirs, 12), Some(Watch { watcher: 12, subject: theirs }));
    assert!(matches!(
        conn.receive(Frame::Data { kind: FrameKind::Message, target: 0, payload: vec![], caps: vec![] }),
        Inbound::Rejected(PeerError::Disconnected)
    ));
    assert_eq!(conn.peer(), BOB);
}
