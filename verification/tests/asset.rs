use std::cell::Cell;
use std::rc::Rc;

use hearth::asset::{AssetError, AssetId, AssetLoader, AssetStore, LoadDone, LoadStep, Loaded};
use hearth::lump::{LumpId, LumpStore};

struct Texture {
    calls: Rc<Cell<usize>>,
}

impl AssetLoader for Texture {
    type Asset = usize;

    fn load_asset(&self, data: &[u8]) -> Result<usize, AssetError> {
        self.calls.set(self.calls.get() + 1);
        if data.is_empty() {
            Err(AssetError::LumpMalformed)
        } else {
            Ok(data.len())
        }
    }
}

fn store_with_texture() -> (AssetStore<Texture>, Rc<Cell<usize>>) {
    let calls = Rc::new(Cell::new(0));
    let mut store = AssetStore::new();
    store.add_loader("texture".to_string(), Texture { calls: calls.clone() });
    (store, calls)
}

#[test]
fn asset_dedup_sixteen_loads_run_the_loader_once() {
    let (mut store, _) = store_with_texture();
    let class = "texture".to_string();
    let lump = LumpId::of(b"pixels");
    let steps: Vec<LoadStep> = (0..16).map(|_| store.begin_load(&class, &lump)).collect();
    assert_eq!(steps.iter().filter(|s| **s == LoadStep::Run).count(), 1);
    assert_eq!(steps[0], LoadStep::Run);
    assert!(steps[1..].iter().all(|s| *s == LoadStep::Wait));
    let done = store.finish_load(&class, &lump, Ok(640)).unwrap();
    assert_eq!(done, LoadDone { outcome: Ok(AssetId(0)), waiters: 15 });
    for _ in 0..16 {
        assert_eq!(store.begin_load(&class, &lump), LoadStep::Ready(AssetId(0)));
    }
    assert_eq!(store.get(AssetId(0)), Some(&640));
    assert_eq!(store.len(), 1);
}

#[test]
fn asset_failure_is_not_cached() {
    let (mut store, _) = store_with_texture();
    let class = "texture".to_string();
    let lump = LumpId::of(b"broken");
    assert_eq!(store.begin_load(&class, &lump), LoadStep::Run);
    assert_eq!(store.begin_load(&class, &lump), LoadStep::Wait);
    let done = store.finish_load(&class, &lump, Err(AssetError::LoaderError)).unwrap();
    assert_eq!(done, LoadDone { outcome: Err(AssetError::LoaderError), waiters: 1 });
    assert_eq!(store.begin_load(&class, &lump), LoadStep::Run);
    let done = store.finish_load(&class, &lump, Ok(7)).unwrap();
    assert_eq!(done, LoadDone { outcome: Ok(AssetId(0)), waiters: 0 });
    assert_eq!(store.finish_load(&class, &lump, Ok(8)), None);
    assert_eq!(store.len(), 1);
}

#[test]
fn asset_keys_are_class_and_lump() {
    let (mut store, calls) = store_with_texture();
    store.add_loader("mesh".to_string(), Texture { calls });
    let texture = "texture".to_string();
    let mesh = "mesh".to_string();
    let a = LumpId::of(b"a");
    let b = LumpId::of(b"b");
    assert_eq!(store.begin_load(&texture, &a), LoadStep::Run);
    assert_eq!(store.begin_load(&texture, &b), LoadStep::Run);
    assert_eq!(store.begin_load(&mesh, &a), LoadStep::Run);
    assert_eq!(store.begin_load(&"sound".to_string(), &a), LoadStep::NoLoader);
    assert_eq!(store.finish_load(&"sound".to_string(), &a, Ok(1)), None);
    store.finish_load(&texture, &b, Ok(2)).unwrap();
    store.finish_load(&mesh, &a, Ok(3)).unwrap();
    assert_eq!(store.begin_load(&texture, &a), LoadStep::Wait);
    assert_eq!(store.begin_load(&texture, &b), LoadStep::Ready(AssetId(0)));
    assert_eq!(store.begin_load(&mesh, &a), LoadStep::Ready(AssetId(1)));
    assert!(store.has_loader(&mesh));
    assert!(!store.has_loader(&"sound".to_string()));
}

#[test]
fn asset_load_runs_the_registered_loader_once() {
    let (mut store, calls) = store_with_texture();
    let mut lumps = LumpStore::new();
    let lump = lumps.add(b"pixels".to_vec());
    let class = "texture".to_string();
    assert_eq!(store.load(&class, &lump, &lumps), Ok(Loaded::Ready(AssetId(0))));
    assert_eq!(store.load(&class, &lump, &lumps), Ok(Loaded::Ready(AssetId(0))));
    assert_eq!(calls.get(), 1);
    assert_eq!(store.get(AssetId(0)), Some(&6));
    assert_eq!(store.get(AssetId(1)), None);
}

#[test]
fn asset_load_surfaces_errors_and_retries() {
    let (mut store, calls) = store_with_texture();
    let mut lumps = LumpStore::new();
    let class = "texture".to_string();
    let missing = LumpId::of(b"never added");
    assert_eq!(store.load(&class, &missing, &lumps), Err(AssetError::LumpNotFound));
    assert_eq!(calls.get(), 0);
    let empty = lumps.add(Vec::new());
    assert_eq!(store.load(&class, &empty, &lumps), Err(AssetError::LumpMalformed));
    assert_eq!(store.load(&class, &empty, &lumps), Err(AssetError::LumpMalformed));
    assert_eq!(calls.get(), 2);
    assert_eq!(store.load(&"mesh".to_string(), &empty, &lumps), Err(AssetError::NoLoader));
    let added = lumps.add(b"never added".to_vec());
    assert_eq!(added, missing);
    assert_eq!(store.load(&class, &missing, &lumps), Ok(Loaded::Ready(AssetId(0))));
    assert_eq!(store.len(), 1);
}

#[test]
fn asset_load_waits_for_a_load_in_flight() {
    let (mut store, calls) = store_with_texture();
    let mut lumps = LumpStore::new();
    let lump = lumps.add(b"pixels".to_vec());
    let class = "texture".to_string();
    assert_eq!(store.peek(&class, &lump), LoadStep::Run);
    assert_eq!(store.begin_load(&class, &lump), LoadStep::Run);
    assert_eq!(store.peek(&class, &lump), LoadStep::Wait);
    // Two callers come while the load is in flight: both wait, and the
    // loader does not run for them.
    assert_eq!(store.load(&class, &lump, &lumps), Ok(Loaded::Wait));
    assert_eq!(store.load(&class, &lump, &lumps), Ok(Loaded::Wait));
    assert_eq!(calls.get(), 0);
    let done = store.finish_load(&class, &lump, Ok(1)).unwrap();
    assert_eq!(done.waiters, 2);
    assert_eq!(done.outcome, Ok(AssetId(0)));
    assert_eq!(store.peek(&class, &lump), LoadStep::Ready(AssetId(0)));
    assert_eq!(store.load(&class, &lump, &lumps), Ok(Loaded::Ready(AssetId(0))));
    assert_eq!(calls.get(), 0);
    assert_eq!(store.peek(&"mesh".to_string(), &lump), LoadStep::NoLoader);
}

#[test]
fn asset_add_loader_replaces_the_loader_of_a_class() {
    let (mut store, first) = store_with_texture();
    let second = Rc::new(Cell::new(0));
    store.add_loader("texture".to_string(), Texture { calls: second.clone() });
    let mut lumps = LumpStore::new();
    let lump = lumps.add(b"pixels".to_vec());
    assert_eq!(store.load(&"texture".to_string(), &lump, &lumps), Ok(Loaded::Ready(AssetId(0))));
    assert_eq!(first.get(), 0);
    assert_eq!(second.get(), 1);
}
