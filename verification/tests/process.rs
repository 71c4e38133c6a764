use hearth::capability::{Capability, Handle, Route};
use hearth::permissions::Permissions;
use hearth::process::{
    Dispatch, LocalProcessId, PeerId, Poll, ProcessError, ProcessEvent, ProcessFactory, ProcessId,
    ProcessMetadata, ProcessState, Received, SendOutcome, Spawned,
};

fn spawn_process(factory: &mut ProcessFactory) -> Spawned {
    factory.spawn(ProcessMetadata::default(), None).unwrap()
}

fn send_kill() -> Permissions {
    Permissions::send().union(Permissions::kill())
}

#[test]
fn process_id_split_round_trip() {
    let id = ProcessId::from_peer_process(PeerId(3), LocalProcessId(9));
    assert_eq!(id, ProcessId(0x3_0000_0009));
    assert_eq!(id.split(), (PeerId(3), LocalProcessId(9)));
    let top = ProcessId::from_peer_process(PeerId(u32::MAX), LocalProcessId(u32::MAX));
    assert_eq!(top, ProcessId(u64::MAX));
    assert_eq!(top.split(), (PeerId(u32::MAX), LocalProcessId(u32::MAX)));
    assert_eq!(ProcessId(5).split(), (PeerId(0), LocalProcessId(5)));
}

#[test]
fn process_state_machine() {
    use_states();
}

fn use_states() {
    let run = ProcessEvent::Run;
    let kill = ProcessEvent::Kill;
    let drained = ProcessEvent::Drained;
    assert_eq!(ProcessState::Spawned.step(run), ProcessState::Live);
    assert_eq!(ProcessState::Live.step(kill), ProcessState::Terminating);
    assert_eq!(ProcessState::Live.step(ProcessEvent::ParentDown), ProcessState::Terminating);
    assert_eq!(ProcessState::Live.step(ProcessEvent::PeerLost), ProcessState::Terminating);
    assert_eq!(ProcessState::Spawned.step(kill), ProcessState::Terminating);
    assert_eq!(ProcessState::Terminating.step(drained), ProcessState::Dead);
    assert_eq!(ProcessState::Terminating.step(run), ProcessState::Terminating);
    assert_eq!(ProcessState::Live.step(drained), ProcessState::Live);
    for event in [run, kill, ProcessEvent::ParentDown, ProcessEvent::PeerLost, drained] {
        assert_eq!(ProcessState::Dead.step(event), ProcessState::Dead);
    }
    assert!(ProcessState::Spawned.is_alive() && ProcessState::Live.is_alive());
    assert!(!ProcessState::Terminating.is_alive() && !ProcessState::Dead.is_alive());
}

#[test]
fn spawn_allocates_increasing_pids() {
    let mut factory = ProcessFactory::new(8);
    let a = spawn_process(&mut factory);
    let b = spawn_process(&mut factory);
    assert_eq!(a.pid, LocalProcessId(0));
    assert_eq!(b.pid, LocalProcessId(1));
    assert_eq!(a.mailbox, 0);
    assert_eq!(b.mailbox, 1);
    assert_eq!(a.cap, Capability { route: Route::Local { mailbox: 0 }, perms: Permissions::all() });
    assert_eq!(factory.state(a.pid), Some(ProcessState::Spawned));
    assert_eq!(factory.run(a.pid), Ok(()));
    assert_eq!(factory.state(a.pid), Some(ProcessState::Live));
    assert_eq!(factory.state(LocalProcessId(2)), None);
    assert_eq!(factory.live(), 2);
    assert_eq!(factory.table(a.pid).unwrap().len(), 0);
    factory.kill_process(a.pid);
    let c = spawn_process(&mut factory);
    assert_eq!(c.pid, LocalProcessId(2));
    assert_eq!(factory.state(a.pid), Some(ProcessState::Dead));
    assert_eq!(factory.run(a.pid), Err(ProcessError::NoSuchProcess));
}

#[test]
fn spawn_keeps_metadata() {
    let mut factory = ProcessFactory::new(1);
    let meta = ProcessMetadata { name: Some("worker".to_string()), ..Default::default() };
    let p = factory.spawn(meta, None).unwrap();
    assert_eq!(factory.metadata(p.pid).unwrap().name, Some("worker".to_string()));
    assert!(factory.metadata(LocalProcessId(4)).is_none());
}

#[test]
fn spawn_limit_counts_live_processes() {
    let mut factory = ProcessFactory::new(2);
    let a = spawn_process(&mut factory);
    let _b = spawn_process(&mut factory);
    assert_eq!(
        factory.spawn(ProcessMetadata::default(), None),
        Err(ProcessError::SpawnLimit)
    );
    factory.kill_process(a.pid);
    assert_eq!(factory.live(), 1);
    assert!(factory.spawn(ProcessMetadata::default(), None).is_ok());
    assert_eq!(
        factory.spawn(ProcessMetadata::default(), None),
        Err(ProcessError::SpawnLimit)
    );
}

#[test]
fn send_delivers_payload_and_re_keys_capabilities() {
    let mut factory = ProcessFactory::new(8);
    let sender = spawn_process(&mut factory);
    let receiver = spawn_process(&mut factory);
    let to_receiver = factory.import(sender.pid, receiver.cap).unwrap();
    let own = factory.make_capability(sender.pid, sender.mailbox, Permissions::send()).unwrap();
    // Push the receiver's handle counter away from the sender's.
    for _ in 0..3 {
        factory.import(receiver.pid, sender.cap).unwrap();
    }
    let outcome = factory.send(sender.pid, to_receiver, b"hello".to_vec(), &vec![own]).unwrap();
    assert!(matches!(outcome, SendOutcome::Delivered));
    match factory.try_recv(receiver.pid, receiver.mailbox) {
        Ok(Some(Received::Message { payload, caps })) => {
            assert_eq!(payload, b"hello");
            assert_eq!(caps, vec![Handle(3)]);
            let table = factory.table(receiver.pid).unwrap();
            assert_eq!(
                table.resolve(caps[0]),
                Some(Capability {
                    route: Route::Local { mailbox: sender.mailbox },
                    perms: Permissions::send()
                })
            );
        }
        other => panic!("unexpected: {:?}", other),
    }
    assert!(matches!(factory.try_recv(receiver.pid, receiver.mailbox), Ok(None)));
}

#[test]
fn send_needs_the_send_permission() {
    let mut factory = ProcessFactory::new(8);
    let sender = spawn_process(&mut factory);
    let receiver = spawn_process(&mut factory);
    let full = factory.import(sender.pid, receiver.cap).unwrap();
    let mute = factory.demote(sender.pid, full, Permissions::monitor()).unwrap();
    assert!(matches!(
        factory.send(sender.pid, mute, b"x".to_vec(), &vec![]),
        Err(ProcessError::PermissionDenied)
    ));
    assert!(matches!(
        factory.send(sender.pid, Handle(77), b"x".to_vec(), &vec![]),
        Err(ProcessError::InvalidHandle)
    ));
    assert!(matches!(
        factory.send(sender.pid, full, b"x".to_vec(), &vec![Handle(77)]),
        Err(ProcessError::InvalidHandle)
    ));
    assert!(matches!(
        factory.send(LocalProcessId(9), full, b"x".to_vec(), &vec![]),
        Err(ProcessError::NoSuchProcess)
    ));
    assert_eq!(factory.post().pending(receiver.mailbox), 0);
}

#[test]
fn send_to_closed_route_is_dropped_silently() {
    let mut factory = ProcessFactory::new(8);
    let sender = spawn_process(&mut factory);
    let receiver = spawn_process(&mut factory);
    let to_receiver = factory.import(sender.pid, receiver.cap).unwrap();
    factory.kill_process(receiver.pid);
    let outcome = factory.send(sender.pid, to_receiver, b"late".to_vec(), &vec![]).unwrap();
    assert!(matches!(outcome, SendOutcome::RouteClosed));
    assert_eq!(factory.post().pending(receiver.mailbox), 0);
    assert!(matches!(
        factory.try_recv(receiver.pid, receiver.mailbox),
        Err(ProcessError::NoSuchProcess)
    ));
}

#[test]
fn send_to_remote_route_is_handed_back() {
    let mut factory = ProcessFactory::new(8);
    let sender = spawn_process(&mut factory);
    let remote = Capability { route: Route::Remote { peer: 4, cap: 11 }, perms: Permissions::send() };
    let target = factory.import(sender.pid, remote).unwrap();
    let own = factory.make_capability(sender.pid, sender.mailbox, Permissions::kill()).unwrap();
    match factory.send(sender.pid, target, b"far".to_vec(), &vec![own]) {
        Ok(SendOutcome::Forward { peer, cap, payload, caps }) => {
            assert_eq!((peer, cap), (4, 11));
            assert_eq!(payload, b"far");
            assert_eq!(
                caps,
                vec![Capability {
                    route: Route::Local { mailbox: sender.mailbox },
                    perms: Permissions::kill()
                }]
            );
        }
        other => panic!("unexpected: {:?}", other),
    }
}

#[test]
fn poll_without_mailboxes() {
    let mut factory = ProcessFactory::new(8);
    let p = spawn_process(&mut factory);
    assert!(matches!(factory.poll(p.pid, &vec![]), Ok(Poll::NoMailboxes)));
    assert!(matches!(
        factory.poll(LocalProcessId(5), &vec![]),
        Err(ProcessError::NoSuchProcess)
    ));
}

#[test]
fn poll_takes_from_the_first_ready_mailbox() {
    let mut factory = ProcessFactory::new(8);
    let p = spawn_process(&mut factory);
    let q = spawn_process(&mut factory);
    let second = factory.mailbox_new(p.pid).unwrap();
    let third = factory.mailbox_new(p.pid).unwrap();
    let all = vec![p.mailbox, second, third];
    assert!(matches!(factory.poll(p.pid, &all), Ok(Poll::Pending)));
    let to_third = factory.make_capability(p.pid, third, Permissions::send()).unwrap();
    let to_second = factory.make_capability(p.pid, second, Permissions::send()).unwrap();
    factory.send(p.pid, to_third, b"3".to_vec(), &vec![]).unwrap();
    factory.send(p.pid, to_second, b"2".to_vec(), &vec![]).unwrap();
    match factory.poll(p.pid, &all) {
        Ok(Poll::Ready { index, signal: Received::Message { payload, .. } }) => {
            assert_eq!(index, 1);
            assert_eq!(payload, b"2");
        }
        other => panic!("unexpected: {:?}", other),
    }
    match factory.poll(p.pid, &all) {
        Ok(Poll::Ready { index, signal: Received::Message { payload, .. } }) => {
            assert_eq!(index, 2);
            assert_eq!(payload, b"3");
        }
        other => panic!("unexpected: {:?}", other),
    }
    assert!(matches!(factory.poll(p.pid, &all), Ok(Poll::Pending)));
    assert!(matches!(
        factory.poll(p.pid, &vec![p.mailbox, q.mailbox]),
        Err(ProcessError::NotOwner)
    ));
}

#[test]
fn monitor_then_kill_delivers_down() {
    let mut factory = ProcessFactory::new(8);
    let p = spawn_process(&mut factory);
    let sibling = spawn_process(&mut factory);
    let killer = spawn_process(&mut factory);
    let m = factory.mailbox_new(sibling.pid).unwrap();
    let perms = Permissions::send().union(Permissions::monitor()).union(Permissions::kill());
    let cap = Capability { route: p.cap.route, perms };
    let watched = factory.import(sibling.pid, cap).unwrap();
    assert_eq!(factory.monitor(sibling.pid, m, watched), Ok(Dispatch::Local));
    let held = factory.import(killer.pid, cap).unwrap();
    assert_eq!(factory.kill(killer.pid, held), Ok(Dispatch::Local));
    assert!(!factory.is_alive(p.pid));
    match factory.try_recv(sibling.pid, m) {
        Ok(Some(Received::Down { subject })) => {
            assert_eq!(factory.table(sibling.pid).unwrap().resolve(subject), Some(cap));
        }
        other => panic!("unexpected: {:?}", other),
    }
    assert!(matches!(factory.try_recv(sibling.pid, m), Ok(None)));
}

#[test]
fn kill_fires_one_down_per_monitor() {
    let mut factory = ProcessFactory::new(8);
    let p = spawn_process(&mut factory);
    let a = spawn_process(&mut factory);
    let b = spawn_process(&mut factory);
    let second = factory.mailbox_new(p.pid).unwrap();
    let for_a = factory.import(a.pid, p.cap).unwrap();
    let for_b = factory.import(b.pid, p.cap).unwrap();
    let second_cap = Capability { route: Route::Local { mailbox: second }, perms: Permissions::all() };
    let for_b2 = factory.import(b.pid, second_cap).unwrap();
    factory.monitor(a.pid, a.mailbox, for_a).unwrap();
    factory.monitor(a.pid, a.mailbox, for_a).unwrap();
    factory.monitor(b.pid, b.mailbox, for_b).unwrap();
    factory.monitor(b.pid, b.mailbox, for_b2).unwrap();
    factory.kill_process(p.pid);
    factory.kill_process(p.pid);
    assert_eq!(factory.post().pending(a.mailbox), 1);
    assert_eq!(factory.post().pending(b.mailbox), 2);
    assert_eq!(factory.table(p.pid).unwrap().len(), 0);
    // Monitoring again after the route is gone fires at once, once more.
    factory.monitor(a.pid, a.mailbox, for_a).unwrap();
    assert_eq!(factory.post().pending(a.mailbox), 2);
}

#[test]
fn parent_is_told_when_child_ends() {
    let mut factory = ProcessFactory::new(8);
    let parent = spawn_process(&mut factory);
    let child = factory.spawn(ProcessMetadata::default(), Some(parent.mailbox)).unwrap();
    factory.kill_process(child.pid);
    match factory.try_recv(parent.pid, parent.mailbox) {
        Ok(Some(Received::Down { subject })) => {
            assert_eq!(factory.table(parent.pid).unwrap().resolve(subject), Some(child.cap));
        }
        other => panic!("unexpected: {:?}", other),
    }
    assert!(factory.is_alive(parent.pid));
}

#[test]
fn demoted_capability_cannot_kill_but_sends() {
    let mut factory = ProcessFactory::new(8);
    let target = spawn_process(&mut factory);
    let holder = spawn_process(&mut factory);
    let minted = Capability { route: target.cap.route, perms: send_kill() };
    let full = factory.import(holder.pid, minted).unwrap();
    let demoted = factory.demote(holder.pid, full, Permissions::send()).unwrap();
    assert_eq!(factory.kill(holder.pid, demoted), Err(ProcessError::PermissionDenied));
    assert!(factory.is_alive(target.pid));
    let outcome = factory.send(holder.pid, demoted, b"ping".to_vec(), &vec![]).unwrap();
    assert!(matches!(outcome, SendOutcome::Delivered));
    assert_eq!(factory.post().pending(target.mailbox), 1);
    assert_eq!(
        factory.demote(holder.pid, demoted, send_kill()),
        Err(ProcessError::PermissionDenied)
    );
    assert_eq!(factory.kill(holder.pid, full), Ok(Dispatch::Local));
    assert!(!factory.is_alive(target.pid));
}

#[test]
fn monitor_needs_permission_and_ownership() {
    let mut factory = ProcessFactory::new(8);
    let target = spawn_process(&mut factory);
    let holder = spawn_process(&mut factory);
    let weak = Capability { route: target.cap.route, perms: Permissions::send() };
    let h = factory.import(holder.pid, weak).unwrap();
    assert_eq!(
        factory.monitor(holder.pid, holder.mailbox, h),
        Err(ProcessError::PermissionDenied)
    );
    let strong = factory.import(holder.pid, target.cap).unwrap();
    assert_eq!(
        factory.monitor(holder.pid, target.mailbox, strong),
        Err(ProcessError::NotOwner)
    );
    assert_eq!(
        factory.monitor(holder.pid, holder.mailbox, Handle(50)),
        Err(ProcessError::InvalidHandle)
    );
    let remote = Capability { route: Route::Remote { peer: 2, cap: 5 }, perms: Permissions::all() };
    let far = factory.import(holder.pid, remote).unwrap();
    assert_eq!(
        factory.monitor(holder.pid, holder.mailbox, far),
        Ok(Dispatch::Remote { peer: 2, cap: 5 })
    );
    assert_eq!(factory.kill(holder.pid, far), Ok(Dispatch::Remote { peer: 2, cap: 5 }));
}

#[test]
fn make_capability_only_for_own_mailboxes() {
    let mut factory = ProcessFactory::new(8);
    let a = spawn_process(&mut factory);
    let b = spawn_process(&mut factory);
    assert_eq!(
        factory.make_capability(a.pid, b.mailbox, Permissions::send()),
        Err(ProcessError::NotOwner)
    );
    let h = factory.make_capability(a.pid, a.mailbox, Permissions::send()).unwrap();
    assert_eq!(
        factory.export(a.pid, h, Permissions::send()),
        Ok(Capability { route: Route::Local { mailbox: a.mailbox }, perms: Permissions::send() })
    );
    assert_eq!(factory.export(a.pid, h, Permissions::kill()), Err(ProcessError::PermissionDenied));
    assert_eq!(factory.drop_cap(a.pid, h), Ok(()));
    assert_eq!(factory.drop_cap(a.pid, h), Err(ProcessError::InvalidHandle));
    assert_eq!(factory.export(a.pid, h, Permissions::send()), Err(ProcessError::InvalidHandle));
    assert!(factory.owns(a.pid, a.mailbox));
    assert!(!factory.owns(a.pid, b.mailbox));
    factory.kill_process(a.pid);
    assert_eq!(factory.mailbox_new(a.pid), Err(ProcessError::NoSuchProcess));
}
