use hearth::capability::{Capability, CapabilityTable, Handle, Route, TableError};
use hearth::permissions::Permissions;

fn send_kill() -> Permissions {
    Permissions::send().union(Permissions::kill())
}

fn local(mailbox: usize, perms: Permissions) -> Capability {
    Capability { route: Route::Local { mailbox }, perms }
}

#[test]
fn table_import_issues_fresh_handles() {
    let mut table = CapabilityTable::new();
    let a = table.import(local(3, Permissions::send()));
    let b = table.import(local(3, Permissions::send()));
    assert_eq!(a, Handle(0));
    assert_eq!(b, Handle(1));
    assert_eq!(table.resolve(a), Some(local(3, Permissions::send())));
    assert_eq!(table.resolve(b), Some(local(3, Permissions::send())));
    assert_eq!(table.resolve(Handle(2)), None);
    assert_eq!(table.len(), 2);
}

#[test]
fn table_import_owned_mints_from_route() {
    let mut table = CapabilityTable::new();
    let h = table.import_owned(Route::Remote { peer: 7, cap: 9 }, Permissions::all());
    assert_eq!(
        table.resolve(h),
        Some(Capability { route: Route::Remote { peer: 7, cap: 9 }, perms: Permissions::all() })
    );
    assert_eq!(table.get_permissions(h), Ok(Permissions::all()));
    assert_eq!(table.get_permissions(Handle(5)), Err(TableError::InvalidHandle));
}

#[test]
fn export_fails_unless_subset() {
    let mut table = CapabilityTable::new();
    let h = table.import(local(1, send_kill()));
    assert_eq!(table.export(h, Permissions::send()), Ok(local(1, Permissions::send())));
    assert_eq!(table.export(h, send_kill()), Ok(local(1, send_kill())));
    assert_eq!(table.export(h, Permissions::empty()), Ok(local(1, Permissions::empty())));
    assert_eq!(table.export(h, Permissions::monitor()), Err(TableError::PermissionDenied));
    assert_eq!(table.export(h, Permissions::all()), Err(TableError::PermissionDenied));
    assert_eq!(table.export(Handle(9), Permissions::empty()), Err(TableError::InvalidHandle));
    assert_eq!(table.len(), 1);
}

#[test]
fn successive_demotions_shrink() {
    let mut table = CapabilityTable::new();
    let h = table.import(local(1, Permissions::all()));
    let first = table.demote(h, send_kill()).unwrap();
    let second = table.demote(first, Permissions::send()).unwrap();
    assert_eq!(table.get_permissions(first), Ok(send_kill()));
    assert_eq!(table.get_permissions(second), Ok(Permissions::send()));
    assert_eq!(table.demote(second, send_kill()), Err(TableError::PermissionDenied));
    assert_eq!(table.demote(first, Permissions::monitor()), Err(TableError::PermissionDenied));
    assert_eq!(table.resolve(second).unwrap().route, Route::Local { mailbox: 1 });
    assert_eq!(table.len(), 3);
}

#[test]
fn import_of_export_is_new_handle_same_route() {
    let mut table = CapabilityTable::new();
    let h = table.import(local(4, send_kill()));
    let exported = table.export(h, Permissions::kill()).unwrap();
    let fresh = table.import(exported);
    assert_ne!(fresh, h);
    assert_eq!(table.resolve(fresh), Some(local(4, Permissions::kill())));
    assert_eq!(table.resolve(h), Some(local(4, send_kill())));
}

#[test]
fn demote_to_own_permissions_is_equivalent() {
    let mut table = CapabilityTable::new();
    let h = table.import(local(4, send_kill()));
    let same = table.demote(h, send_kill()).unwrap();
    assert_ne!(same, h);
    assert_eq!(table.resolve(same), table.resolve(h));
}

#[test]
fn dropped_handles_are_not_reused() {
    let mut table = CapabilityTable::new();
    let a = table.import(local(1, Permissions::send()));
    assert_eq!(table.drop(a), Ok(local(1, Permissions::send())));
    assert_eq!(table.drop(a), Err(TableError::InvalidHandle));
    assert!(!table.is_valid(a));
    let b = table.import(local(2, Permissions::send()));
    assert_eq!(b, Handle(1));
    assert_eq!(table.resolve(a), None);
    assert_eq!(table.len(), 1);
}

#[test]
fn release_all_empties_the_table() {
    let mut table = CapabilityTable::new();
    table.import(local(1, Permissions::send()));
    table.import(local(2, Permissions::send()));
    table.release_all();
    assert_eq!(table.len(), 0);
    assert_eq!(table.resolve(Handle(0)), None);
    assert_eq!(table.import(local(3, Permissions::send())), Handle(2));
}

#[test]
fn import_all_keeps_order() {
    let mut table = CapabilityTable::new();
    table.import(local(0, Permissions::empty()));
    let caps = vec![local(5, Permissions::send()), local(6, Permissions::kill())];
    let handles = table.import_all(&caps);
    assert_eq!(handles, vec![Handle(1), Handle(2)]);
    assert_eq!(table.resolve(Handle(1)), Some(caps[0]));
    assert_eq!(table.resolve(Handle(2)), Some(caps[1]));
}
