use hearth::permissions::{Permission, Permissions};

fn send_kill() -> Permissions {
    Permissions::send().union(Permissions::kill())
}

#[test]
fn permission_bits_follow_the_flags() {
    assert_eq!(Permissions::empty().bits(), 0);
    assert_eq!(Permissions::send().bits(), 1);
    assert_eq!(Permissions::monitor().bits(), 2);
    assert_eq!(Permissions::kill().bits(), 4);
    assert_eq!(Permissions::link().bits(), 8);
    assert_eq!(Permissions::all().bits(), 15);
    assert_eq!(Permissions::only(Permission::Kill), Permissions::kill());
}

#[test]
fn permission_from_bits_rejects_unknown_bits() {
    assert_eq!(Permissions::from_bits(5), Some(send_kill()));
    assert_eq!(Permissions::from_bits(15), Some(Permissions::all()));
    assert_eq!(Permissions::from_bits(16), None);
    assert_eq!(Permissions::from_bits(u32::MAX), None);
    assert_eq!(Permissions::from_bits_truncate(0x15), send_kill());
}

#[test]
fn permission_contains_is_subset() {
    let both = send_kill();
    assert!(both.contains(Permissions::send()));
    assert!(both.contains(Permissions::kill()));
    assert!(both.contains(both));
    assert!(both.contains(Permissions::empty()));
    assert!(!both.contains(Permissions::monitor()));
    assert!(!Permissions::send().contains(both));
    assert!(Permissions::all().contains(both));
}

#[test]
fn permission_has_flag() {
    let both = send_kill();
    assert!(both.has(Permission::Send));
    assert!(both.has(Permission::Kill));
    assert!(!both.has(Permission::Monitor));
    assert!(!both.has(Permission::Link));
    assert!(Permissions::empty().is_empty());
    assert!(!both.is_empty());
}

#[test]
fn permission_union_and_intersection() {
    let a = Permissions::send().union(Permissions::monitor());
    let b = Permissions::monitor().union(Permissions::kill());
    assert_eq!(a.intersection(b), Permissions::monitor());
    assert_eq!(a.union(b).bits(), 7);
    assert_eq!(a.intersection(Permissions::link()), Permissions::empty());
    assert!(a.contains(a.intersection(b)));
    assert!(b.contains(a.intersection(b)));
}
