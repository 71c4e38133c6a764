use hearth::lump::{LumpId, LumpStore};

fn hex(id: &LumpId) -> String {
    id.0.iter().map(|b| format!("{:02x}", b)).collect()
}

#[test]
fn lump_id_is_sha256() {
    assert_eq!(
        hex(&LumpId::of(b"abc")),
        "ba7816bf8f01cfea414140de5dae2223b00361a396177a9cb410ff61f20015ad"
    );
    assert_eq!(
        hex(&LumpId::of(b"")),
        "e3b0c44298fc1c149afbf4c8996fb92427ae41e4649b934ca495991b7852b855"
    );
}

#[test]
fn lump_add_then_get_returns_the_blob() {
    let mut store = LumpStore::new();
    let blob = b"some bytes".to_vec();
    let id = store.add(blob.clone());
    assert_eq!(id, LumpId::of(&blob));
    assert_eq!(store.get(&id), Some(&blob));
    assert!(store.contains(&id));
    assert_eq!(store.get(&LumpId([0; 32])), None);
    assert!(!store.contains(&LumpId([0; 32])));
}

#[test]
fn lump_add_is_idempotent() {
    let mut store = LumpStore::new();
    let a = store.add(b"same".to_vec());
    let b = store.add(b"same".to_vec());
    assert_eq!(a, b);
    assert_eq!(store.len(), 1);
    let c = store.add(b"other".to_vec());
    assert_ne!(a, c);
    assert_eq!(store.len(), 2);
    assert_eq!(store.get(&a).unwrap(), b"same");
    assert_eq!(store.get(&c).unwrap(), b"other");
}

#[test]
fn lump_ids_compare_by_bytes() {
    let a = LumpId::of(b"a");
    let b = LumpId::of(b"b");
    assert!(a.same(&a));
    assert!(!a.same(&b));
    let mut last = a;
    last.0[31] ^= 1;
    assert!(!a.same(&last));
}

#[test]
fn lump_loan_keeps_the_blob() {
    let mut store = LumpStore::new();
    let id = store.add(b"kept".to_vec());
    assert!(store.loan(&LumpId([1; 32])).is_none());
    let first = store.loan(&id).unwrap();
    let second = store.loan(&id).unwrap();
    assert_eq!(first.id(), id);
    assert_eq!(store.loans(&id), 2);
    assert!(!store.evict(&id));
    store.release(first);
    assert!(!store.evict(&id));
    assert_eq!(store.get(&id).unwrap(), b"kept");
    store.release(second);
    assert_eq!(store.loans(&id), 0);
    assert!(store.evict(&id));
    assert_eq!(store.get(&id), None);
    assert!(!store.evict(&id));
    assert_eq!(store.len(), 0);
}

#[test]
fn lump_loans_survive_a_second_add() {
    let mut store = LumpStore::new();
    let id = store.add(b"kept".to_vec());
    let loan = store.loan(&id).unwrap();
    store.add(b"kept".to_vec());
    assert_eq!(store.loans(&id), 1);
    store.add(b"else".to_vec());
    store.release(loan);
    assert!(store.evict(&id));
    assert_eq!(store.len(), 1);
}
