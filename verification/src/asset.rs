//! The asset store: artifacts decoded from lumps by named loader classes,
//! cached under the pair of class name and lump identifier.
//!
//! For each key at most one load is in flight. The first caller is told to run
//! the loader; callers that come while it runs are told to wait and get its
//! outcome. A failed load leaves no trace, so the next caller runs the loader
//! again.

use vstd::prelude::*;
use crate::lump::{LumpId, LumpStore};

verus! {

/// Why an asset could not be had.
#[derive(Clone, Copy, Debug, PartialEq, Eq, Structural)]
pub enum AssetError {
    /// No loader is registered for the class.
    NoLoader,
    /// The lump is not in the lump store.
    LumpNotFound,
    /// The lump is not what the loader can read.
    LumpMalformed,
    /// The loader failed for a reason of its own.
    LoaderError,
}

/// A decoder from the bytes of a lump to an artifact.
pub trait AssetLoader {
    /// What the loader makes.
    type Asset;

    /// Decodes `data`.
    fn load_asset(&self, data: &[u8]) -> Result<Self::Asset, AssetError>;
}

/// Names an artifact of the store.
#[derive(Clone, Copy, Debug, PartialEq, Eq, Hash, Structural)]
pub struct AssetId(pub usize);

/// What a caller who asks for an asset is to do.
#[derive(Clone, Copy, Debug, PartialEq, Eq, Structural)]
pub enum LoadStep {
    /// No loader is registered for the class; the load fails.
    NoLoader,
    /// The asset is cached.
    Ready(AssetId),
    /// No load is in flight: run the loader and report with `finish_load`.
    Run,
    /// A load is in flight: wait for its outcome.
    Wait,
}

/// The outcome of a load, for the caller who ran the loader and for those who
/// waited.
#[derive(Clone, Copy, Debug, PartialEq, Eq)]
pub struct LoadDone {
    /// The asset, or why there is none.
    pub outcome: Result<AssetId, AssetError>,
    /// How many callers waited for this outcome.
    pub waiters: usize,
}

/// The state of one key.
pub enum SlotModel {
    /// A load is in flight and `waiters` callers wait for it.
    Loading { waiters: nat },
    /// The asset is cached.
    Ready { asset: usize },
}

/// The store as a plain value.
pub struct AssetStoreModel<A> {
    /// The classes that have a loader.
    pub classes: Seq<Seq<char>>,
    /// The keys that are cached or being loaded.
    pub slots: Map<(Seq<char>, Seq<u8>), SlotModel>,
    /// The artifacts; an asset identifier is an index here.
    pub assets: Seq<A>,
}

/// The count of waiters after one more came; it stops at the largest number
/// that the machine can hold.
pub open spec fn one_more(waiters: nat) -> nat {
    if waiters < usize::MAX {
        waiters + 1
    } else {
        waiters
    }
}

/// What a caller who asks for `key` is told.
pub open spec fn begin_step<A>(m: AssetStoreModel<A>, key: (Seq<char>, Seq<u8>)) -> LoadStep {
    if !m.classes.contains(key.0) {
        LoadStep::NoLoader
    } else if !m.slots.contains_key(key) {
        LoadStep::Run
    } else {
        match m.slots[key] {
            SlotModel::Ready { asset } => LoadStep::Ready(AssetId(asset)),
            SlotModel::Loading { .. } => LoadStep::Wait,
        }
    }
}

/// The store after a caller asked for `key`.
pub open spec fn begin_of<A>(m: AssetStoreModel<A>, key: (Seq<char>, Seq<u8>)) -> AssetStoreModel<A> {
    match begin_step(m, key) {
        LoadStep::Run => AssetStoreModel {
            slots: m.slots.insert(key, SlotModel::Loading { waiters: 0 }),
            ..m
        },
        LoadStep::Wait => AssetStoreModel {
            slots: m.slots.insert(
                key,
                SlotModel::Loading { waiters: one_more(m.slots[key]->waiters) },
            ),
            ..m
        },
        _ => m,
    }
}

/// Whether a load of `key` is in flight.
pub open spec fn in_flight<A>(m: AssetStoreModel<A>, key: (Seq<char>, Seq<u8>)) -> bool {
    m.slots.contains_key(key) && m.slots[key] is Loading
}

/// The store after the load of `key` that was in flight ended in `result`: a
/// new artifact is cached, a failure leaves no trace.
pub open spec fn finish_of<A>(
    m: AssetStoreModel<A>,
    key: (Seq<char>, Seq<u8>),
    result: Result<A, AssetError>,
) -> AssetStoreModel<A> {
    if in_flight(m, key) {
        match result {
            Ok(asset) => AssetStoreModel {
                slots: m.slots.insert(key, SlotModel::Ready { asset: m.assets.len() as usize }),
                assets: m.assets.push(asset),
                ..m
            },
            Err(_) => AssetStoreModel { slots: m.slots.remove(key), ..m },
        }
    } else {
        m
    }
}

/// What `finish_load` answers.
pub open spec fn finish_done<A>(
    m: AssetStoreModel<A>,
    key: (Seq<char>, Seq<u8>),
    result: Result<A, AssetError>,
) -> Option<LoadDone> {
    if in_flight(m, key) {
        Some(
            LoadDone {
                outcome: match result {
                    Ok(_) => Ok(AssetId(m.assets.len() as usize)),
                    Err(e) => Err(e),
                },
                waiters: m.slots[key]->waiters as usize,
            },
        )
    } else {
        None
    }
}

/// What a caller of `load` gets where the load did not fail.
#[derive(Clone, Copy, Debug, PartialEq, Eq, Structural)]
pub enum Loaded {
    /// The asset.
    Ready(AssetId),
    /// A load of the key is in flight: the caller was counted among those
    /// who wait, and the outcome comes with the `finish_load` of that load.
    Wait,
}

/// What `load` answers for a key that is neither cached nor being loaded,
/// where the loader made `result` of the lump's bytes.
pub open spec fn loaded_of<A>(m: AssetStoreModel<A>, result: Result<A, AssetError>) -> Result<
    Loaded,
    AssetError,
> {
    match result {
        Ok(_) => Ok(Loaded::Ready(AssetId(m.assets.len() as usize))),
        Err(e) => Err(e),
    }
}

struct Slot {
    class: String,
    lump: LumpId,
    loading: bool,
    waiters: usize,
    asset: usize,
}

struct LoaderEntry<L> {
    class: String,
    loader: L,
}

/// A cache of artifacts with at most one load in flight for each key.
pub struct AssetStore<L: AssetLoader> {
    loaders: Vec<LoaderEntry<L>>,
    slots: Vec<Slot>,
    assets: Vec<L::Asset>,
}

/// The key of a slot.
spec fn slot_key(slot: Slot) -> (Seq<char>, Seq<u8>) {
    (slot.class@, slot.lump@)
}

/// The state of a slot.
spec fn slot_state(slot: Slot) -> SlotModel {
    if slot.loading {
        SlotModel::Loading { waiters: slot.waiters as nat }
    } else {
        SlotModel::Ready { asset: slot.asset }
    }
}

impl<L: AssetLoader> View for AssetStore<L> {
    type V = AssetStoreModel<L::Asset>;

    closed spec fn view(&self) -> AssetStoreModel<L::Asset> {
        AssetStoreModel {
            classes: Seq::new(self.loaders@.len(), |i: int| self.loaders@[i].class@),
            slots: Map::new(
                |key: (Seq<char>, Seq<u8>)|
                    exists|i: int| 0 <= i < self.slots@.len() && slot_key(self.slots@[i]) == key,
                |key: (Seq<char>, Seq<u8>)|
                    slot_state(
                        self.slots@[choose|i: int|
                            0 <= i < self.slots@.len() && slot_key(self.slots@[i]) == key],
                    ),
            ),
            assets: self.assets@,
        }
    }
}

impl<L: AssetLoader> AssetStore<L> {
    /// The invariant: no class and no key occurs twice, and every cached key
    /// names an artifact of the store.
    pub closed spec fn wf(&self) -> bool {
        &&& forall|i: int, j: int|
            0 <= i < self.loaders@.len() && 0 <= j < self.loaders@.len() && i != j
                ==> self.loaders@[i].class@ != self.loaders@[j].class@
        &&& forall|i: int, j: int|
            0 <= i < self.slots@.len() && 0 <= j < self.slots@.len() && i != j ==> slot_key(
                self.slots@[i],
            ) != slot_key(self.slots@[j])
        &&& forall|i: int|
            0 <= i < self.slots@.len() && !(#[trigger] self.slots@[i]).loading
                ==> self.slots@[i].asset < self.assets@.len()
    }

    /// The loader of each class that has one.
    pub closed spec fn loader_map(&self) -> Map<Seq<char>, L> {
        Map::new(
            |class: Seq<char>|
                exists|i: int| 0 <= i < self.loaders@.len() && self.loaders@[i].class@ == class,
            |class: Seq<char>|
                self.loaders@[choose|i: int|
                    0 <= i < self.loaders@.len() && self.loaders@[i].class@ == class].loader,
        )
    }

    /// The classes that have a loader are the classes of the view.
    pub proof fn lemma_loader_classes(&self, class: Seq<char>)
        ensures
            self.loader_map().contains_key(class) <==> self@.classes.contains(class),
    {
        if self.loader_map().contains_key(class) {
            let i = choose|i: int| 0 <= i < self.loaders@.len() && self.loaders@[i].class@ == class;
            assert(self@.classes[i] == class);
        }
        if self@.classes.contains(class) {
            let i = choose|i: int| 0 <= i < self@.classes.len() && self@.classes[i] == class;
            assert(self.loaders@[i].class@ == class);
        }
    }

    /// The loader at position `i` is what the map holds under its class.
    proof fn lemma_loader(&self, i: int)
        requires
            self.wf(),
            0 <= i < self.loaders@.len(),
        ensures
            self.loader_map().contains_key(self.loaders@[i].class@),
            self.loader_map()[self.loaders@[i].class@] == self.loaders@[i].loader,
    {
        let class = self.loaders@[i].class@;
        let j = choose|j: int| 0 <= j < self.loaders@.len() && self.loaders@[j].class@ == class;
        assert(i == j);
    }

    /// In a well-formed store every cached key names an artifact.
    pub proof fn lemma_ready_in_range(&self, key: (Seq<char>, Seq<u8>))
        requires
            self.wf(),
            self@.slots.contains_key(key),
            self@.slots[key] is Ready,
        ensures
            self@.slots[key]->asset < self@.assets.len(),
    {
        let i = choose|i: int| 0 <= i < self.slots@.len() && slot_key(self.slots@[i]) == key;
        assert(!self.slots@[i].loading);
    }

    /// The slot at position `i` is what the view holds under its key.
    proof fn lemma_slot(&self, i: int)
        requires
            self.wf(),
            0 <= i < self.slots@.len(),
        ensures
            self@.slots.contains_key(slot_key(self.slots@[i])),
            self@.slots[slot_key(self.slots@[i])] == slot_state(self.slots@[i]),
    {
        let key = slot_key(self.slots@[i]);
        let j = choose|j: int| 0 <= j < self.slots@.len() && slot_key(self.slots@[j]) == key;
        assert(i == j);
    }

    /// A store without loaders and without assets.
    pub fn new() -> (store: AssetStore<L>)
        ensures
            store.wf(),
            store@.classes == Seq::<Seq<char>>::empty(),
            store@.slots == Map::<(Seq<char>, Seq<u8>), SlotModel>::empty(),
            store@.assets == Seq::<L::Asset>::empty(),
    {
        let store = AssetStore { loaders: Vec::new(), slots: Vec::new(), assets: Vec::new() };
        assert(store@.classes =~= Seq::<Seq<char>>::empty());
        assert(store@.slots =~= Map::<(Seq<char>, Seq<u8>), SlotModel>::empty());
        store
    }

    /// The position of the loader for `class`, if there is one.
    fn find_loader(&self, class: &String) -> (r: Option<usize>)
        ensures
            r is Some <==> self@.classes.contains(class@),
            r matches Some(i) ==> i < self.loaders@.len() && self.loaders@[i as int].class@
                == class@,
    {
        let mut i: usize = 0;
        while i < self.loaders.len()
            invariant
                i <= self.loaders@.len(),
                forall|k: int| 0 <= k < i ==> self@.classes[k] != class@,
            decreases self.loaders@.len() - i,
        {
            if self.loaders[i].class == *class {
                assert(self@.classes[i as int] == class@);
                return Some(i);
            }
            i = i + 1;
        }
        None
    }

    /// The position of the slot for a key, if there is one.
    fn find_slot(&self, class: &String, lump: &LumpId) -> (r: Option<usize>)
        ensures
            r is Some <==> self@.slots.contains_key((class@, lump@)),
            r matches Some(i) ==> i < self.slots@.len() && slot_key(self.slots@[i as int]) == (
                class@,
                lump@,
            ),
    {
        let mut i: usize = 0;
        while i < self.slots.len()
            invariant
                i <= self.slots@.len(),
                forall|k: int| 0 <= k < i ==> slot_key(self.slots@[k]) != (class@, lump@),
            decreases self.slots@.len() - i,
        {
            if self.slots[i].class == *class && self.slots[i].lump.same(lump) {
                return Some(i);
            }
            i = i + 1;
        }
        None
    }

    /// Whether a loader is registered for `class`.
    pub fn has_loader(&self, class: &String) -> (r: bool)
        ensures
            r == self@.classes.contains(class@),
    {
        self.find_loader(class).is_some()
    }

    /// Registers `loader` for `class`, in place of the loader that the class
    /// had, if it had one.
    pub fn add_loader(&mut self, class: String, loader: L)
        requires
            old(self).wf(),
        ensures
            final(self).wf(),
            final(self)@.slots == old(self)@.slots,
            final(self)@.assets == old(self)@.assets,
            final(self)@.classes == (if old(self)@.classes.contains(class@) {
                old(self)@.classes
            } else {
                old(self)@.classes.push(class@)
            }),
            final(self).loader_map() == old(self).loader_map().insert(class@, loader),
    {
        let ghost before = *self;
        let ghost expected = before.loader_map().insert(class@, loader);
        let ghost at: int;
        match self.find_loader(&class) {
            Some(i) => {
                proof {
                    at = i as int;
                }
                self.loaders[i].loader = loader;
                assert(self@.classes =~= old(self)@.classes);
                assert(self@.slots =~= old(self)@.slots);
                proof {
                    assert forall|k: int| 0 <= k < self.loaders@.len() implies (#[trigger] self.loaders@[k]).class@
                        == before.loaders@[k].class@ && (k != i ==> self.loaders@[k].loader
                        == before.loaders@[k].loader) by {}
                    assert(self.wf());
                }
            },
            None => {
                proof {
                    at = self.loaders@.len() as int;
                }
                self.loaders.push(LoaderEntry { class, loader });
                assert(self@.classes =~= old(self)@.classes.push(class@));
                assert(self@.slots =~= old(self)@.slots);
                assert forall|i: int, j: int|
                    0 <= i < self.loaders@.len() && 0 <= j < self.loaders@.len() && i
                        != j implies self.loaders@[i].class@ != self.loaders@[j].class@ by {
                    if i < old(self).loaders@.len() {
                        assert(old(self)@.classes[i] == self.loaders@[i].class@);
                    }
                    if j < old(self).loaders@.len() {
                        assert(old(self)@.classes[j] == self.loaders@[j].class@);
                    }
                }
                proof {
                    assert forall|k: int| 0 <= k < before.loaders@.len() implies #[trigger] self.loaders@[k]
                        == before.loaders@[k] by {}
                    assert(self.wf());
                }
            },
        }
        proof {
            assert forall|c: Seq<char>|
                self.loader_map().contains_key(c) <==> #[trigger] expected.contains_key(c) by {
                if before.loader_map().contains_key(c) {
                    let k = choose|k: int|
                        0 <= k < before.loaders@.len() && before.loaders@[k].class@ == c;
                    assert(self.loaders@[k].class@ == c);
                }
                if c == class@ {
                    let k = self.loaders@.len() - 1;
                    if !before@.classes.contains(class@) {
                        assert(self.loaders@[k].class@ == c);
                    } else {
                        let k = choose|k: int|
                            0 <= k < before@.classes.len() && before@.classes[k] == class@;
                        assert(self.loaders@[k].class@ == c);
                    }
                }
                if self.loader_map().contains_key(c) && c != class@ {
                    let k = choose|k: int|
                        0 <= k < self.loaders@.len() && self.loaders@[k].class@ == c;
                    assert(k < before.loaders@.len());
                    assert(before.loaders@[k].class@ == c);
                }
            }
            assert forall|c: Seq<char>| #[trigger] expected.contains_key(c) implies self.loader_map()[c]
                == expected[c] by {
                let k = choose|k: int| 0 <= k < self.loaders@.len() && self.loaders@[k].class@ == c;
                self.lemma_loader(k);
                if c != class@ {
                    assert(k < before.loaders@.len());
                    assert(before.loaders@[k].class@ == c);
                    before.lemma_loader(k);
                } else {
                    assert(self.loaders@[at].class@ == class@);
                    assert(k == at);
                }
            }
            assert(self.loader_map() =~= expected);
        }
    }

    /// The artifact `id`, if there is one.
    pub fn get(&self, id: AssetId) -> (r: Option<&L::Asset>)
        ensures
            r is Some <==> id.0 < self@.assets.len(),
            r matches Some(asset) ==> *asset == self@.assets[id.0 as int],
    {
        if id.0 < self.assets.len() {
            Some(&self.assets[id.0])
        } else {
            None
        }
    }

    /// The number of artifacts.
    pub fn len(&self) -> (n: usize)
        ensures
            n == self@.assets.len(),
    {
        self.assets.len()
    }

    /// Asks for the asset of `class` made from `lump` and says what the caller
    /// is to do: see [`LoadStep`].
    pub fn begin_load(&mut self, class: &String, lump: &LumpId) -> (step: LoadStep)
        requires
            old(self).wf(),
        ensures
            final(self).wf(),
            step == begin_step(old(self)@, (class@, lump@)),
            final(self)@ == begin_of(old(self)@, (class@, lump@)),
            final(self).loader_map() == old(self).loader_map(),
    {
        let ghost key = (class@, lump@);
        let ghost before = *self;
        if !self.has_loader(class) {
            return LoadStep::NoLoader;
        }
        match self.find_slot(class, lump) {
            Some(i) => {
                proof {
                    self.lemma_slot(i as int);
                }
                if self.slots[i].loading {
                    let waiters = self.slots[i].waiters;
                    if waiters < usize::MAX {
                        self.slots[i].waiters = waiters + 1;
                    }
                    proof {
                        let state = SlotModel::Loading { waiters: one_more(waiters as nat) };
                        assert(slot_state(self.slots@[i as int]) == state);
                        assert forall|k: int| 0 <= k < self.slots@.len() implies slot_key(
                            #[trigger] self.slots@[k],
                        ) == slot_key(before.slots@[k]) && (k != i ==> self.slots@[k]
                            == before.slots@[k]) by {}
                        assert(self.wf());
                        self.lemma_slots_updated(before, i as int, state);
                        assert(self@.classes =~= before@.classes);
                    }
                    LoadStep::Wait
                } else {
                    LoadStep::Ready(AssetId(self.slots[i].asset))
                }
            },
            None => {
                self.slots.push(
                    Slot { class: class.clone(), lump: *lump, loading: true, waiters: 0, asset: 0 },
                );
                proof {
                    let state = SlotModel::Loading { waiters: 0 };
                    let n = before.slots@.len() as int;
                    assert(slot_key(self.slots@[n]) == key);
                    assert forall|k: int| 0 <= k < n implies #[trigger] self.slots@[k]
                        == before.slots@[k] by {}
                    assert(self.wf());
                    self.lemma_slots_pushed(before, state);
                    assert(self@.classes =~= before@.classes);
                }
                LoadStep::Run
            },
        }
    }

    /// Where a store differs from another only in the state of the slot at
    /// `i`, its view differs only under the key of that slot.
    proof fn lemma_slots_updated(&self, before: Self, i: int, state: SlotModel)
        requires
            before.wf(),
            self.wf(),
            0 <= i < before.slots@.len(),
            self.slots@.len() == before.slots@.len(),
            forall|k: int|
                0 <= k < self.slots@.len() ==> slot_key(#[trigger] self.slots@[k]) == slot_key(
                    before.slots@[k],
                ) && (k != i ==> slot_state(self.slots@[k]) == slot_state(before.slots@[k])),
            slot_state(self.slots@[i]) == state,
        ensures
            self@.slots == before@.slots.insert(slot_key(before.slots@[i]), state),
    {
        let expected = before@.slots.insert(slot_key(before.slots@[i]), state);
        assert forall|key: (Seq<char>, Seq<u8>)|
            self@.slots.contains_key(key) <==> #[trigger] expected.contains_key(key) by {
            if before@.slots.contains_key(key) {
                let k = choose|k: int|
                    0 <= k < before.slots@.len() && slot_key(before.slots@[k]) == key;
                assert(slot_key(self.slots@[k]) == key);
            }
            if key == slot_key(before.slots@[i]) {
                assert(slot_key(self.slots@[i]) == key);
            }
            if self@.slots.contains_key(key) {
                let k = choose|k: int| 0 <= k < self.slots@.len() && slot_key(self.slots@[k]) == key;
                assert(slot_key(before.slots@[k]) == key);
            }
        }
        assert forall|key: (Seq<char>, Seq<u8>)| #[trigger]
            self@.slots.contains_key(key) implies self@.slots[key] == expected[key] by {
            let k = choose|k: int| 0 <= k < self.slots@.len() && slot_key(self.slots@[k]) == key;
            self.lemma_slot(k);
            before.lemma_slot(k);
        }
        assert(self@.slots =~= expected);
    }

    /// Where a store has one slot more than another, at the end and under a
    /// new key, its view has that key more.
    proof fn lemma_slots_pushed(&self, before: Self, state: SlotModel)
        requires
            before.wf(),
            self.wf(),
            self.slots@.len() == before.slots@.len() + 1,
            forall|k: int| 0 <= k < before.slots@.len() ==> #[trigger] self.slots@[k]
                == before.slots@[k],
            slot_state(self.slots@[self.slots@.len() - 1]) == state,
        ensures
            self@.slots == before@.slots.insert(
                slot_key(self.slots@[self.slots@.len() - 1]),
                state,
            ),
    {
        let n = before.slots@.len() as int;
        let expected = before@.slots.insert(slot_key(self.slots@[n]), state);
        assert forall|key: (Seq<char>, Seq<u8>)|
            self@.slots.contains_key(key) <==> #[trigger] expected.contains_key(key) by {
            if before@.slots.contains_key(key) {
                let k = choose|k: int|
                    0 <= k < before.slots@.len() && slot_key(before.slots@[k]) == key;
                assert(slot_key(self.slots@[k]) == key);
            }
            if key == slot_key(self.slots@[n]) {
                assert(slot_key(self.slots@[n]) == key);
            }
            if self@.slots.contains_key(key) {
                let k = choose|k: int| 0 <= k < self.slots@.len() && slot_key(self.slots@[k]) == key;
                if k < n {
                    assert(slot_key(before.slots@[k]) == key);
                }
            }
        }
        assert forall|key: (Seq<char>, Seq<u8>)| #[trigger]
            self@.slots.contains_key(key) implies self@.slots[key] == expected[key] by {
            let k = choose|k: int| 0 <= k < self.slots@.len() && slot_key(self.slots@[k]) == key;
            self.lemma_slot(k);
            if k < n {
                before.lemma_slot(k);
            }
        }
        assert(self@.slots =~= expected);
    }

    /// Where a store lacks the slot at `i` of another, its view lacks the key
    /// of that slot.
    proof fn lemma_slots_removed(&self, before: Self, i: int)
        requires
            before.wf(),
            self.wf(),
            0 <= i < before.slots@.len(),
            self.slots@ == before.slots@.remove(i),
        ensures
            self@.slots == before@.slots.remove(slot_key(before.slots@[i])),
    {
        let gone = slot_key(before.slots@[i]);
        let expected = before@.slots.remove(gone);
        assert forall|key: (Seq<char>, Seq<u8>)|
            self@.slots.contains_key(key) <==> #[trigger] expected.contains_key(key) by {
            if expected.contains_key(key) {
                let k = choose|k: int|
                    0 <= k < before.slots@.len() && slot_key(before.slots@[k]) == key;
                if k < i {
                    assert(slot_key(self.slots@[k]) == key);
                } else {
                    assert(slot_key(self.slots@[k - 1]) == key);
                }
            }
            if self@.slots.contains_key(key) {
                let k = choose|k: int| 0 <= k < self.slots@.len() && slot_key(self.slots@[k]) == key;
                let kk = if k < i {
                    k
                } else {
                    k + 1
                };
                assert(slot_key(before.slots@[kk]) == key);
            }
        }
        assert forall|key: (Seq<char>, Seq<u8>)| #[trigger]
            self@.slots.contains_key(key) implies self@.slots[key] == expected[key] by {
            let k = choose|k: int| 0 <= k < self.slots@.len() && slot_key(self.slots@[k]) == key;
            self.lemma_slot(k);
            before.lemma_slot(
                if k < i {
                    k
                } else {
                    k + 1
                },
            );
        }
        assert(self@.slots =~= expected);
    }

    /// Reports how the load of a key that was in flight ended. A new artifact
    /// is cached under the key; a failure removes the key, so that the next
    /// caller runs the loader again. The answer holds the outcome for all who
    /// waited and their number; it is `None`, and nothing changes, where no
    /// load of the key was in flight.
    pub fn finish_load(&mut self, class: &String, lump: &LumpId, result: Result<L::Asset, AssetError>)
        -> (done: Option<LoadDone>)
        requires
            old(self).wf(),
        ensures
            final(self).wf(),
            done == finish_done(old(self)@, (class@, lump@), result),
            final(self)@ == finish_of(old(self)@, (class@, lump@), result),
            final(self).loader_map() == old(self).loader_map(),
    {
        let ghost before = *self;
        match self.find_slot(class, lump) {
            None => None,
            Some(i) => {
                proof {
                    self.lemma_slot(i as int);
                }
                if !self.slots[i].loading {
                    return None;
                }
                let waiters = self.slots[i].waiters;
                match result {
                    Ok(asset) => {
                        let id = self.assets.len();
                        self.assets.push(asset);
                        self.slots[i].loading = false;
                        self.slots[i].asset = id;
                        proof {
                            let state = SlotModel::Ready { asset: id };
                            assert forall|k: int| 0 <= k < self.slots@.len() implies slot_key(
                                #[trigger] self.slots@[k],
                            ) == slot_key(before.slots@[k]) && (k != i ==> self.slots@[k]
                                == before.slots@[k]) by {}
                            assert(self.wf());
                            self.lemma_slots_updated(before, i as int, state);
                            assert(self@.classes =~= before@.classes);
                        }
                        Some(LoadDone { outcome: Ok(AssetId(id)), waiters })
                    },
                    Err(e) => {
                        self.slots.remove(i);
                        proof {
                            assert forall|k: int| 0 <= k < self.slots@.len() implies #[trigger] self.slots@[k]
                                == before.slots@[if k < i {
                                    k
                                } else {
                                    k + 1
                                }] by {}
                            assert(self.wf());
                            self.lemma_slots_removed(before, i as int);
                            assert(self@.classes =~= before@.classes);
                        }
                        Some(LoadDone { outcome: Err(e), waiters })
                    },
                }
            },
        }
    }

    /// What a caller who asks for the asset of `class` made from `lump` would
    /// be told, without asking.
    pub fn peek(&self, class: &String, lump: &LumpId) -> (step: LoadStep)
        requires
            self.wf(),
        ensures
            step == begin_step(self@, (class@, lump@)),
    {
        if !self.has_loader(class) {
            return LoadStep::NoLoader;
        }
        match self.find_slot(class, lump) {
            None => LoadStep::Run,
            Some(i) => {
                proof {
                    self.lemma_slot(i as int);
                }
                if self.slots[i].loading {
                    LoadStep::Wait
                } else {
                    LoadStep::Ready(AssetId(self.slots[i].asset))
                }
            },
        }
    }

    /// Loads the asset of `class` made from `lump`: the cached artifact where
    /// there is one, else what the loader of the class makes of the lump's
    /// bytes, which is cached where the loader succeeds and leaves no trace
    /// where it fails. Where a load of the key is in flight, the caller is
    /// counted among those who wait for it and told to wait.
    pub fn load(&mut self, class: &String, lump: &LumpId, lumps: &LumpStore) -> (r: Result<
        Loaded,
        AssetError,
    >)
        requires
            old(self).wf(),
            lumps.wf(),
        ensures
            final(self).wf(),
            final(self).loader_map() == old(self).loader_map(),
            ({
                let before = old(self)@;
                let after = final(self)@;
                let key = (class@, lump@);
                match begin_step(before, key) {
                    LoadStep::NoLoader => r == Err::<Loaded, AssetError>(AssetError::NoLoader)
                        && after == before,
                    LoadStep::Ready(id) => r == Ok::<Loaded, AssetError>(Loaded::Ready(id))
                        && after == before,
                    LoadStep::Wait => r == Ok::<Loaded, AssetError>(Loaded::Wait) && after
                        == begin_of(before, key),
                    LoadStep::Run => if !lumps@.contains_key(lump@) {
                        r == Err::<Loaded, AssetError>(AssetError::LumpNotFound) && after == before
                    } else {
                        exists|data: &[u8], result: Result<L::Asset, AssetError>|
                            {
                                &&& data@ == lumps@[lump@].data
                                &&& call_ensures(
                                    L::load_asset,
                                    (&old(self).loader_map()[class@], data),
                                    result,
                                )
                                &&& r == loaded_of(before, result)
                                &&& after == finish_of(begin_of(before, key), key, result)
                            }
                    },
                }
            }),
    {
        let ghost key = (class@, lump@);
        let ghost before = self@;
        match self.begin_load(class, lump) {
            LoadStep::NoLoader => Err(AssetError::NoLoader),
            LoadStep::Ready(id) => Ok(Loaded::Ready(id)),
            LoadStep::Wait => Ok(Loaded::Wait),
            LoadStep::Run => {
                let ghost started = self@;
                assert(in_flight(started, key));
                match lumps.get(lump) {
                    None => {
                        self.finish_load(class, lump, Err(AssetError::LumpNotFound));
                        assert(self@.slots =~= before.slots);
                        Err(AssetError::LumpNotFound)
                    },
                    Some(data) => {
                        let result = match self.find_loader(class) {
                            Some(i) => {
                                proof {
                                    self.lemma_loader(i as int);
                                }
                                self.loaders[i].loader.load_asset(data.as_slice())
                            },
                            None => Err(AssetError::NoLoader),
                        };
                        let done = self.finish_load(class, lump, result);
                        match done {
                            Some(d) => match d.outcome {
                                Ok(id) => Ok(Loaded::Ready(id)),
                                Err(e) => Err(e),
                            },
                            None => Err(AssetError::LoaderError),
                        }
                    },
                }
            },
        }
    }
}

/// While a load of a key is in flight, every caller who asks for the key is
/// told to wait, and the load stays in flight: the loader is not run again.
pub proof fn lemma_in_flight_waits<A>(m: AssetStoreModel<A>, key: (Seq<char>, Seq<u8>))
    requires
        m.classes.contains(key.0),
        in_flight(m, key),
    ensures
        begin_step(m, key) == LoadStep::Wait,
        in_flight(begin_of(m, key), key),
        begin_of(m, key).assets == m.assets,
        begin_of(m, key).classes == m.classes,
{
}

/// The store after `count` callers asked for `key`, one after the other.
pub open spec fn begin_n_of<A>(m: AssetStoreModel<A>, key: (Seq<char>, Seq<u8>), count: nat)
    -> AssetStoreModel<A>
    decreases count,
{
    if count == 0 {
        m
    } else {
        begin_n_of(begin_of(m, key), key, (count - 1) as nat)
    }
}

/// How many of `count` callers who ask for `key`, one after the other, are told
/// to run the loader.
pub open spec fn runs_among<A>(m: AssetStoreModel<A>, key: (Seq<char>, Seq<u8>), count: nat) -> nat
    decreases count,
{
    if count == 0 {
        0
    } else {
        (if begin_step(m, key) == LoadStep::Run {
            1nat
        } else {
            0nat
        }) + runs_among(begin_of(m, key), key, (count - 1) as nat)
    }
}

/// Of any number of callers who ask for a key while no outcome is reported,
/// the loader is run by one at most: by exactly one where the class has a
/// loader, the key is neither cached nor being loaded and at least one caller
/// asks; by none where the key is cached or being loaded already.
pub proof fn lemma_loader_runs_once<A>(m: AssetStoreModel<A>, key: (Seq<char>, Seq<u8>), count: nat)
    requires
        m.classes.contains(key.0),
    ensures
        m.slots.contains_key(key) ==> runs_among(m, key, count) == 0,
        !m.slots.contains_key(key) && count > 0 ==> runs_among(m, key, count) == 1 && in_flight(
            begin_n_of(m, key, count),
            key,
        ),
        begin_n_of(m, key, count).assets == m.assets,
        begin_n_of(m, key, count).classes == m.classes,
        m.slots.contains_key(key) ==> begin_n_of(m, key, count).slots.contains_key(key) && (
        m.slots[key] is Loading <==> begin_n_of(m, key, count).slots[key] is Loading),
    decreases count,
{
    if count > 0 {
        let next = begin_of(m, key);
        lemma_loader_runs_once(next, key, (count - 1) as nat);
    }
}

/// After a load succeeded the asset is cached: every caller gets the same
/// identifier and the loader is not run again.
pub proof fn lemma_success_is_cached<A>(m: AssetStoreModel<A>, key: (Seq<char>, Seq<u8>), asset: A)
    requires
        m.classes.contains(key.0),
        in_flight(m, key),
        m.assets.len() <= usize::MAX,
    ensures
        ({
            let after = finish_of(m, key, Ok(asset));
            &&& begin_step(after, key) == LoadStep::Ready(AssetId(m.assets.len() as usize))
            &&& begin_of(after, key) == after
            &&& after.assets[m.assets.len() as int] == asset
            &&& finish_done(m, key, Ok(asset))->Some_0.outcome == Ok::<AssetId, AssetError>(
                AssetId(m.assets.len() as usize),
            )
        }),
{
}

/// A failed load poisons nothing: the error goes to all who waited, the key
/// is forgotten, and the next caller is told to run the loader again.
pub proof fn lemma_failure_retries<A>(
    m: AssetStoreModel<A>,
    key: (Seq<char>, Seq<u8>),
    error: AssetError,
)
    requires
        m.classes.contains(key.0),
        in_flight(m, key),
    ensures
        ({
            let after = finish_of(m, key, Err::<A, AssetError>(error));
            &&& !after.slots.contains_key(key)
            &&& begin_step(after, key) == LoadStep::Run
            &&& after.assets == m.assets
            &&& finish_done(m, key, Err::<A, AssetError>(error))->Some_0.outcome == Err::<
                AssetId,
                AssetError,
            >(error)
        }),
{
}

} // verus!
