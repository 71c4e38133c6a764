use hearth::capability::{Capability, Route};
use hearth::mailbox::{PostOffice, Signal};
use hearth::permissions::Permissions;

fn message(text: &str) -> Signal {
    Signal::Message { payload: text.as_bytes().to_vec(), caps: vec![] }
}

fn payload(signal: Option<Signal>) -> Vec<u8> {
    match signal {
        Some(Signal::Message { payload, .. }) => payload,
        other => panic!("no message: {:?}", other),
    }
}

fn subject(signal: Option<Signal>) -> Capability {
    match signal {
        Some(Signal::Down { subject }) => subject,
        other => panic!("no down: {:?}", other),
    }
}

fn cap_to(mailbox: usize) -> Capability {
    Capability { route: Route::Local { mailbox }, perms: Permissions::monitor() }
}

#[test]
fn messages_arrive_in_send_order() {
    let mut post = PostOffice::new();
    let m = post.create(0);
    for text in ["one", "two", "three", "four"] {
        assert!(post.deliver(m, message(text)));
    }
    assert_eq!(post.pending(m), 4);
    assert_eq!(payload(post.take(m)), b"one");
    assert_eq!(payload(post.take(m)), b"two");
    assert!(post.deliver(m, message("five")));
    assert_eq!(payload(post.take(m)), b"three");
    assert_eq!(payload(post.take(m)), b"four");
    assert_eq!(payload(post.take(m)), b"five");
    assert!(post.take(m).is_none());
}

#[test]
fn signal_to_missing_or_closed_mailbox_is_dropped() {
    let mut post = PostOffice::new();
    assert!(!post.deliver(0, message("nobody")));
    let m = post.create(0);
    post.close(m);
    assert!(!post.is_open(m));
    assert!(!post.deliver(m, message("late")));
    assert_eq!(post.pending(m), 0);
    assert!(post.take(m).is_none());
    assert_eq!(post.len(), 1);
}

#[test]
fn close_drains_and_fires_each_watch_once() {
    let mut post = PostOffice::new();
    let target = post.create(0);
    let watcher = post.create(1);
    let other = post.create(2);
    assert!(post.watch(cap_to(target), watcher));
    assert!(post.watch(cap_to(target), watcher));
    assert!(post.watch(cap_to(target), other));
    post.deliver(target, message("pending"));
    post.close(target);
    assert_eq!(post.pending(target), 0);
    assert_eq!(post.pending(watcher), 1);
    assert_eq!(post.pending(other), 1);
    assert_eq!(subject(post.take(watcher)), cap_to(target));
    assert_eq!(subject(post.take(other)), cap_to(target));
    post.close(target);
    assert_eq!(post.pending(watcher), 0);
}

#[test]
fn watch_on_closed_route_fires_at_once() {
    let mut post = PostOffice::new();
    let target = post.create(0);
    let watcher = post.create(1);
    post.close(target);
    assert!(post.watch(cap_to(target), watcher));
    assert_eq!(subject(post.take(watcher)), cap_to(target));
    assert!(post.watch(cap_to(target), watcher));
    assert!(post.watch(cap_to(99), watcher));
    assert_eq!(post.pending(watcher), 2);
}

#[test]
fn watch_on_remote_route_is_not_local() {
    let mut post = PostOffice::new();
    let watcher = post.create(0);
    let remote = Capability { route: Route::Remote { peer: 1, cap: 2 }, perms: Permissions::all() };
    assert!(!post.watch(remote, watcher));
    assert_eq!(post.pending(watcher), 0);
}

#[test]
fn down_comes_after_earlier_messages() {
    let mut post = PostOffice::new();
    let target = post.create(0);
    let watcher = post.create(1);
    post.watch(cap_to(target), watcher);
    post.deliver(watcher, message("before"));
    post.close(target);
    post.deliver(watcher, message("after"));
    assert_eq!(payload(post.take(watcher)), b"before");
    assert_eq!(subject(post.take(watcher)), cap_to(target));
    assert_eq!(payload(post.take(watcher)), b"after");
}

#[test]
fn kill_group_closes_every_mailbox_of_the_group() {
    let mut post = PostOffice::new();
    let a = post.create(7);
    let b = post.create(7);
    let outside = post.create(8);
    post.watch(cap_to(a), outside);
    post.watch(cap_to(b), outside);
    post.watch(cap_to(b), a);
    post.watch(cap_to(outside), a);
    post.deliver(a, message("lost"));
    post.kill_group(7);
    assert!(!post.is_open(a));
    assert!(!post.is_open(b));
    assert!(post.is_open(outside));
    assert_eq!(post.pending(a), 0);
    assert_eq!(post.pending(b), 0);
    assert_eq!(subject(post.take(outside)), cap_to(a));
    assert_eq!(subject(post.take(outside)), cap_to(b));
    assert!(post.take(outside).is_none());
    assert_eq!(post.group_of(a), Some(7));
    assert_eq!(post.group_of(3), None);
}
