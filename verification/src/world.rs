//! The entity store: entities with components, kept as bytes.
//!
//! An entity is a number that is never given out twice. Each entity has at
//! most one component for each component identifier.

use vstd::prelude::*;
use crate::component::{
    ascending, AsComponentData, AsMultiComponentData, ComponentData, ComponentId, Layout,
};

verus! {

/// Identifies an entity.
pub type EntityId = u64;

struct Component {
    id: ComponentId,
    data: Vec<u8>,
}

struct Entity {
    id: EntityId,
    components: Vec<Component>,
}

/// The components of an entity as a plain value.
spec fn components_of(components: Seq<Component>) -> Map<ComponentId, Seq<u8>> {
    Map::new(
        |cid: ComponentId| exists|j: int| 0 <= j < components.len() && components[j].id == cid,
        |cid: ComponentId|
            components[choose|j: int| 0 <= j < components.len() && components[j].id == cid].data@,
    )
}

/// Whether no component identifier occurs twice.
spec fn distinct_components(components: Seq<Component>) -> bool {
    forall|i: int, j: int|
        0 <= i < components.len() && 0 <= j < components.len() && i != j ==> components[i].id
            != components[j].id
}

/// The component at position `j` is what the view holds under its identifier.
proof fn lemma_component(components: Seq<Component>, j: int)
    requires
        distinct_components(components),
        0 <= j < components.len(),
    ensures
        components_of(components).contains_key(components[j].id),
        components_of(components)[components[j].id] == components[j].data@,
{
    let cid = components[j].id;
    let k = choose|k: int| 0 <= k < components.len() && components[k].id == cid;
    assert(k == j);
}

/// A store of entities and their components.
pub struct World {
    entities: Vec<Entity>,
    next_id: EntityId,
}

/// A world as a plain value.
pub struct WorldModel {
    /// The entities that exist, each with its components.
    pub entities: Map<EntityId, Map<ComponentId, Seq<u8>>>,
    /// The identifier that the next entity gets.
    pub next_id: EntityId,
}

impl View for World {
    type V = WorldModel;

    closed spec fn view(&self) -> WorldModel {
        WorldModel {
            entities: Map::new(
                |e: EntityId| exists|i: int| 0 <= i < self.entities@.len() && self.entities@[i].id == e,
                |e: EntityId|
                    components_of(
                        self.entities@[choose|i: int|
                            0 <= i < self.entities@.len() && self.entities@[i].id == e].components@,
                    ),
            ),
            next_id: self.next_id,
        }
    }
}

/// The world after the component `cid` of entity `e` was set to `data`; a
/// world without the entity stays as it is.
pub open spec fn insert_of(w: WorldModel, e: EntityId, cid: ComponentId, data: Seq<u8>) -> WorldModel {
    if w.entities.contains_key(e) {
        WorldModel { entities: w.entities.insert(e, w.entities[e].insert(cid, data)), ..w }
    } else {
        w
    }
}

/// The world after the component `cid` of entity `e` was removed.
pub open spec fn remove_of(w: WorldModel, e: EntityId, cid: ComponentId) -> WorldModel {
    if w.entities.contains_key(e) {
        WorldModel { entities: w.entities.insert(e, w.entities[e].remove(cid)), ..w }
    } else {
        w
    }
}

/// The world after an entity without components was spawned.
pub open spec fn spawn_of(w: WorldModel) -> WorldModel {
    WorldModel {
        entities: w.entities.insert(w.next_id, Map::empty()),
        next_id: (w.next_id + 1) as EntityId,
    }
}

/// The world after the components `datas`, each an identifier with its
/// bytes, were set on entity `e` one after the other: of two with one
/// identifier the later stays.
pub open spec fn insert_all_of(
    w: WorldModel,
    e: EntityId,
    datas: Seq<(ComponentId, Seq<u8>)>,
) -> WorldModel
    decreases datas.len(),
{
    if datas.len() == 0 {
        w
    } else {
        insert_of(insert_all_of(w, e, datas.drop_last()), e, datas.last().0, datas.last().1)
    }
}

/// The world after an entity with the components `datas` was pushed: the
/// entity is spawned and gets the components in their order.
pub open spec fn push_of(w: WorldModel, datas: Seq<(ComponentId, Seq<u8>)>) -> WorldModel {
    insert_all_of(spawn_of(w), w.next_id, datas)
}

/// Each component of `datas` as an identifier with its bytes.
pub open spec fn data_views(datas: Seq<ComponentData>) -> Seq<(ComponentId, Seq<u8>)> {
    Seq::new(datas.len(), |i: int| (datas[i].id, datas[i].data@))
}

/// Setting components on an entity leaves every other entity, and the
/// identifier that the next entity gets, as they were.
pub proof fn lemma_insert_all_keeps_others(
    w: WorldModel,
    e: EntityId,
    datas: Seq<(ComponentId, Seq<u8>)>,
)
    ensures
        insert_all_of(w, e, datas).next_id == w.next_id,
        insert_all_of(w, e, datas).entities.dom() == w.entities.dom(),
        insert_all_of(w, e, datas).entities.remove(e) == w.entities.remove(e),
    decreases datas.len(),
{
    if datas.len() > 0 {
        lemma_insert_all_keeps_others(w, e, datas.drop_last());
        let before = insert_all_of(w, e, datas.drop_last());
        let after = insert_all_of(w, e, datas);
        assert(after.entities.dom() =~= before.entities.dom());
        assert(after.entities.remove(e) =~= before.entities.remove(e));
    }
}

/// Whether an entity with components `components` has every component of
/// `wanted`.
pub open spec fn has_all(components: Map<ComponentId, Seq<u8>>, wanted: Seq<ComponentId>) -> bool {
    forall|i: int| 0 <= i < wanted.len() ==> components.contains_key(#[trigger] wanted[i])
}

impl World {
    /// The invariant: entity identifiers ascend and lie below the next
    /// identifier, and no entity has two components under one identifier.
    pub closed spec fn wf(&self) -> bool {
        &&& forall|i: int, j: int|
            0 <= i < j < self.entities@.len() ==> self.entities@[i].id < self.entities@[j].id
        &&& forall|i: int|
            0 <= i < self.entities@.len() ==> (#[trigger] self.entities@[i]).id < self.next_id
        &&& forall|i: int|
            0 <= i < self.entities@.len() ==> distinct_components(
                (#[trigger] self.entities@[i]).components@,
            )
    }

    /// Every entity that exists has an identifier below the next one.
    pub proof fn lemma_ids_below_next(&self, e: EntityId)
        requires
            self.wf(),
            self@.entities.contains_key(e),
        ensures
            e < self@.next_id,
    {
        let i = choose|i: int| 0 <= i < self.entities@.len() && self.entities@[i].id == e;
        assert(self.entities@[i].id < self.next_id);
    }

    /// The entity at position `i` is what the view holds under its
    /// identifier.
    proof fn lemma_entity(&self, i: int)
        requires
            self.wf(),
            0 <= i < self.entities@.len(),
        ensures
            self@.entities.contains_key(self.entities@[i].id),
            self@.entities[self.entities@[i].id] == components_of(self.entities@[i].components@),
    {
        let e = self.entities@[i].id;
        let k = choose|k: int| 0 <= k < self.entities@.len() && self.entities@[k].id == e;
        if k < i {
            assert(self.entities@[k].id < self.entities@[i].id);
        }
        if i < k {
            assert(self.entities@[i].id < self.entities@[k].id);
        }
    }

    /// Where a world differs from another only in the components of the
    /// entity at `i`, its view differs only under that entity.
    proof fn lemma_entity_changed(&self, before: Self, i: int)
        requires
            before.wf(),
            self.wf(),
            0 <= i < before.entities@.len(),
            self.entities@.len() == before.entities@.len(),
            self.next_id == before.next_id,
            forall|k: int|
                0 <= k < self.entities@.len() ==> (#[trigger] self.entities@[k]).id
                    == before.entities@[k].id && (k != i ==> self.entities@[k].components
                    == before.entities@[k].components),
        ensures
            self@ == (WorldModel {
                entities: before@.entities.insert(
                    before.entities@[i].id,
                    components_of(self.entities@[i].components@),
                ),
                ..before@
            }),
    {
        let expected = before@.entities.insert(
            before.entities@[i].id,
            components_of(self.entities@[i].components@),
        );
        assert forall|e: EntityId| self@.entities.contains_key(e) <==> #[trigger] expected.contains_key(
            e,
        ) by {
            if before@.entities.contains_key(e) {
                let k = choose|k: int| 0 <= k < before.entities@.len() && before.entities@[k].id == e;
                assert(self.entities@[k].id == e);
            }
            if e == before.entities@[i].id {
                assert(self.entities@[i].id == e);
            }
            if self@.entities.contains_key(e) {
                let k = choose|k: int| 0 <= k < self.entities@.len() && self.entities@[k].id == e;
                assert(before.entities@[k].id == e);
            }
        }
        assert forall|e: EntityId| #[trigger] self@.entities.contains_key(e) implies self@.entities[e]
            == expected[e] by {
            let k = choose|k: int| 0 <= k < self.entities@.len() && self.entities@[k].id == e;
            self.lemma_entity(k);
            before.lemma_entity(k);
            if k != i {
                assert(self.entities@[k].id != self.entities@[i].id) by {
                    if k < i {
                        assert(self.entities@[k].id < self.entities@[i].id);
                    } else {
                        assert(self.entities@[i].id < self.entities@[k].id);
                    }
                }
            }
        }
        assert(self@.entities =~= expected);
    }

    /// An empty world.
    pub fn new() -> (world: World)
        ensures
            world.wf(),
            world@ == (WorldModel { entities: Map::empty(), next_id: 0 }),
    {
        let world = World { entities: Vec::new(), next_id: 0 };
        assert(world@.entities =~= Map::<EntityId, Map<ComponentId, Seq<u8>>>::empty());
        world
    }

    /// The position of entity `e`, if it exists.
    fn find(&self, e: EntityId) -> (r: Option<usize>)
        ensures
            r is Some <==> self@.entities.contains_key(e),
            r matches Some(i) ==> i < self.entities@.len() && self.entities@[i as int].id == e,
    {
        let mut i: usize = 0;
        while i < self.entities.len()
            invariant
                i <= self.entities@.len(),
                forall|k: int| 0 <= k < i ==> self.entities@[k].id != e,
            decreases self.entities@.len() - i,
        {
            if self.entities[i].id == e {
                return Some(i);
            }
            i = i + 1;
        }
        None
    }

    /// Whether entity `e` exists.
    pub fn contains(&self, e: EntityId) -> (r: bool)
        ensures
            r == self@.entities.contains_key(e),
    {
        self.find(e).is_some()
    }

    /// The number of entities.
    pub fn len(&self) -> (n: usize)
        ensures
            n == self.spec_len(),
    {
        self.entities.len()
    }

    /// The number of entities.
    pub closed spec fn spec_len(&self) -> nat {
        self.entities@.len()
    }

    /// Whether an identifier is left for another entity.
    pub fn can_spawn(&self) -> (r: bool)
        ensures
            r == (self@.next_id < u64::MAX),
    {
        self.next_id < u64::MAX
    }

    /// Allocates an empty entity. Identifiers run out after 2^64 - 1
    /// entities; a world at that point cannot spawn.
    pub fn spawn(&mut self) -> (id: EntityId)
        requires
            old(self).wf(),
            old(self)@.next_id < u64::MAX,
        ensures
            final(self).wf(),
            id == old(self)@.next_id,
            !old(self)@.entities.contains_key(id),
            final(self)@ == spawn_of(old(self)@),
            final(self).spec_len() == old(self).spec_len() + 1,
    {
        let ghost before = *self;
        let id = self.next_id;
        self.entities.push(Entity { id, components: Vec::new() });
        self.next_id = self.next_id + 1;
        proof {
            let n = before.entities@.len() as int;
            assert(components_of(self.entities@[n].components@) =~= Map::<
                ComponentId,
                Seq<u8>,
            >::empty());
            assert(!before@.entities.contains_key(id)) by {
                if before@.entities.contains_key(id) {
                    before.lemma_ids_below_next(id);
                }
            }
            assert forall|k: int| 0 <= k < n implies #[trigger] self.entities@[k]
                == before.entities@[k] by {}
            assert(self.wf());
            let expected = spawn_of(before@).entities;
            assert forall|e: EntityId| self@.entities.contains_key(e) <==> #[trigger] expected.contains_key(
                e,
            ) by {
                if before@.entities.contains_key(e) {
                    let k = choose|k: int|
                        0 <= k < before.entities@.len() && before.entities@[k].id == e;
                    assert(self.entities@[k].id == e);
                }
                if e == id {
                    assert(self.entities@[n].id == e);
                }
                if self@.entities.contains_key(e) {
                    let k = choose|k: int| 0 <= k < self.entities@.len() && self.entities@[k].id == e;
                    if k < n {
                        assert(before.entities@[k].id == e);
                    }
                }
            }
            assert forall|e: EntityId| #[trigger] self@.entities.contains_key(e) implies self@.entities[e]
                == expected[e] by {
                let k = choose|k: int| 0 <= k < self.entities@.len() && self.entities@[k].id == e;
                self.lemma_entity(k);
                if k < n {
                    before.lemma_entity(k);
                }
            }
            assert(self@.entities =~= expected);
        }
        id
    }

    /// Destroys an entity, with its components.
    pub fn destroy(&mut self, e: EntityId)
        requires
            old(self).wf(),
        ensures
            final(self).wf(),
            final(self)@ == (WorldModel {
                entities: old(self)@.entities.remove(e),
                ..old(self)@
            }),
    {
        let ghost before = *self;
        match self.find(e) {
            None => {
                assert(self@.entities =~= before@.entities.remove(e));
            },
            Some(i) => {
                self.entities.remove(i);
                proof {
                    let expected = before@.entities.remove(e);
                    assert forall|k: int| 0 <= k < self.entities@.len() implies #[trigger] self.entities@[k]
                        == before.entities@[if k < i {
                            k
                        } else {
                            k + 1
                        }] by {}
                    assert(self.wf());
                    assert forall|x: EntityId| self@.entities.contains_key(x) <==> #[trigger] expected.contains_key(
                        x,
                    ) by {
                        if expected.contains_key(x) {
                            let k = choose|k: int|
                                0 <= k < before.entities@.len() && before.entities@[k].id == x;
                            if k < i {
                                assert(self.entities@[k].id == x);
                            } else {
                                assert(self.entities@[k - 1].id == x);
                            }
                        }
                        if self@.entities.contains_key(x) {
                            let k = choose|k: int|
                                0 <= k < self.entities@.len() && self.entities@[k].id == x;
                            let kk = if k < i {
                                k
                            } else {
                                k + 1
                            };
                            assert(before.entities@[kk].id == x);
                            if kk < i {
                                assert(before.entities@[kk].id < before.entities@[i as int].id);
                            } else {
                                assert(before.entities@[i as int].id < before.entities@[kk].id);
                            }
                        }
                    }
                    assert forall|x: EntityId| #[trigger] self@.entities.contains_key(x) implies self@.entities[x]
                        == expected[x] by {
                        let k = choose|k: int|
                            0 <= k < self.entities@.len() && self.entities@[k].id == x;
                        self.lemma_entity(k);
                        before.lemma_entity(
                            if k < i {
                                k
                            } else {
                                k + 1
                            },
                        );
                    }
                    assert(self@.entities =~= expected);
                }
            },
        }
    }

    /// Sets the component `cid` of entity `e` to `data`. A world without the
    /// entity stays as it is.
    pub fn insert_data(&mut self, e: EntityId, cid: ComponentId, data: Vec<u8>)
        requires
            old(self).wf(),
        ensures
            final(self).wf(),
            final(self)@ == insert_of(old(self)@, e, cid, data@),
    {
        let ghost before = *self;
        match self.find(e) {
            None => {},
            Some(i) => {
                proof {
                    before.lemma_entity(i as int);
                }
                let mut components: Vec<Component> = Vec::new();
                std::mem::swap(&mut components, &mut self.entities[i].components);
                set_component(&mut components, cid, data);
                self.entities[i].components = components;
                proof {
                    assert forall|k: int| 0 <= k < self.entities@.len() implies (#[trigger] self.entities@[k]).id
                        == before.entities@[k].id && (k != i ==> self.entities@[k].components
                        == before.entities@[k].components) by {}
                    assert(self.wf());
                    self.lemma_entity_changed(before, i as int);
                }
            },
        }
    }

    /// Inserts a component into an entity: the identifier and bytes that `c`
    /// gives as its component data are stored as by [`World::insert_data`].
    pub fn insert<T: AsComponentData>(&mut self, e: EntityId, c: T)
        requires
            old(self).wf(),
        ensures
            final(self).wf(),
            exists|data: ComponentData|
                call_ensures(T::as_component_data, (&c,), data) && final(self)@ == insert_of(
                    old(self)@,
                    e,
                    data.id,
                    data.data@,
                ),
    {
        let data = c.as_component_data();
        let cid = data.id;
        let storage = vstd::slice::slice_to_vec(data.data);
        self.insert_data(e, cid, storage);
    }

    /// Removes the component `cid` from entity `e`.
    pub fn remove_cid(&mut self, e: EntityId, cid: ComponentId)
        requires
            old(self).wf(),
        ensures
            final(self).wf(),
            final(self)@ == remove_of(old(self)@, e, cid),
    {
        let ghost before = *self;
        match self.find(e) {
            None => {},
            Some(i) => {
                proof {
                    before.lemma_entity(i as int);
                }
                let mut components: Vec<Component> = Vec::new();
                std::mem::swap(&mut components, &mut self.entities[i].components);
                unset_component(&mut components, cid);
                self.entities[i].components = components;
                proof {
                    assert forall|k: int| 0 <= k < self.entities@.len() implies (#[trigger] self.entities@[k]).id
                        == before.entities@[k].id && (k != i ==> self.entities@[k].components
                        == before.entities@[k].components) by {}
                    assert(self.wf());
                    self.lemma_entity_changed(before, i as int);
                }
            },
        }
    }

    /// Removes the component of the Rust type `T` from an entity.
    pub fn remove<T: 'static>(&mut self, e: EntityId)
        requires
            old(self).wf(),
        ensures
            final(self).wf(),
            exists|cid: ComponentId|
                cid.spec_is_type() && final(self)@ == remove_of(old(self)@, e, cid),
    {
        let cid = ComponentId::from_type::<T>();
        self.remove_cid(e, cid);
    }

    /// The bytes of the component `cid` of entity `e`, if the entity exists
    /// and has the component.
    pub fn get_data(&self, e: EntityId, cid: ComponentId) -> (r: Option<&Vec<u8>>)
        requires
            self.wf(),
        ensures
            r is Some <==> self@.entities.contains_key(e) && self@.entities[e].contains_key(cid),
            r matches Some(data) ==> data@ == self@.entities[e][cid],
    {
        match self.find(e) {
            None => None,
            Some(i) => {
                proof {
                    self.lemma_entity(i as int);
                }
                match find_component(&self.entities[i].components, cid) {
                    None => None,
                    Some(j) => {
                        proof {
                            lemma_component(self.entities@[i as int].components@, j as int);
                        }
                        Some(&self.entities[i].components[j].data)
                    },
                }
            },
        }
    }

    /// The layout of an entity: the identifiers of its components. `None`
    /// where the entity does not exist.
    pub fn get_layout(&self, e: EntityId) -> (r: Option<Layout>)
        requires
            self.wf(),
        ensures
            r is Some <==> self@.entities.contains_key(e),
            r matches Some(layout) ==> ascending(layout@) && forall|cid: ComponentId|
                layout@.contains(cid) <==> self@.entities[e].contains_key(cid),
    {
        match self.find(e) {
            None => None,
            Some(i) => {
                proof {
                    self.lemma_entity(i as int);
                }
                let components = &self.entities[i].components;
                let mut ids: Vec<ComponentId> = Vec::new();
                let mut j: usize = 0;
                while j < components.len()
                    invariant
                        j <= components@.len(),
                        ids@.len() == j,
                        forall|k: int| 0 <= k < j ==> ids@[k] == components@[k].id,
                    decreases components@.len() - j,
                {
                    ids.push(components[j].id);
                    j = j + 1;
                }
                let layout = Layout::from_ids(ids);
                proof {
                    ids@.to_multiset_ensures();
                    layout@.to_multiset_ensures();
                    assert forall|cid: ComponentId| layout@.contains(cid) <==> self@.entities[e].contains_key(
                        cid,
                    ) by {
                        assert(layout@.contains(cid) <==> layout@.to_multiset().count(cid) > 0);
                        assert(ids@.contains(cid) <==> ids@.to_multiset().count(cid) > 0);
                        assert(self@.entities[e] == components_of(components@));
                        if ids@.contains(cid) {
                            let k = choose|k: int| 0 <= k < ids@.len() && ids@[k] == cid;
                            assert(components@[k].id == cid);
                        }
                        if self@.entities[e].contains_key(cid) {
                            let k = choose|k: int|
                                0 <= k < components@.len() && components@[k].id == cid;
                            assert(ids@[k] == cid);
                        }
                    }
                }
                Some(layout)
            },
        }
    }

    /// Creates a new entity with the components `datas`, set in their order;
    /// of two components with one identifier the later stays.
    pub fn push_data(&mut self, datas: &Vec<ComponentData>) -> (id: EntityId)
        requires
            old(self).wf(),
            old(self)@.next_id < u64::MAX,
        ensures
            final(self).wf(),
            id == old(self)@.next_id,
            final(self)@ == push_of(old(self)@, data_views(datas@)),
    {
        let e = self.spawn();
        let ghost spawned = self@;
        let ghost views = data_views(datas@);
        let mut i: usize = 0;
        proof {
            assert(views.take(0) =~= Seq::empty());
        }
        while i < datas.len()
            invariant
                i <= datas@.len(),
                self.wf(),
                views == data_views(datas@),
                self@ == insert_all_of(spawned, e, views.take(i as int)),
            decreases datas@.len() - i,
        {
            let storage = vstd::slice::slice_to_vec(datas[i].data);
            self.insert_data(e, datas[i].id, storage);
            proof {
                let next = views.take(i + 1);
                assert(next.drop_last() =~= views.take(i as int));
                assert(next.last() == (datas@[i as int].id, datas@[i as int].data@));
            }
            i = i + 1;
        }
        proof {
            assert(views.take(datas@.len() as int) =~= views);
        }
        e
    }

    /// Creates a new entity with the given components: what `components`
    /// hands out, each an identifier with its bytes, is set on the new
    /// entity as by [`World::push_data`].
    pub fn push<T: AsMultiComponentData>(&mut self, components: T) -> (id: EntityId)
        requires
            old(self).wf(),
            old(self)@.next_id < u64::MAX,
        ensures
            final(self).wf(),
            id == old(self)@.next_id,
            exists|datas: Seq<(ComponentId, Seq<u8>)>| final(self)@ == push_of(old(self)@, datas),
    {
        let mut datas: Vec<ComponentData> = Vec::new();
        components.get_data(&mut datas);
        let e = self.push_data(&datas);
        proof {
            assert(self@ == push_of(old(self)@, data_views(datas@)));
        }
        e
    }
}

/// The position of the component `cid`, if there is one.
fn find_component(components: &Vec<Component>, cid: ComponentId) -> (r: Option<usize>)
    ensures
        r is Some <==> components_of(components@).contains_key(cid),
        r matches Some(j) ==> j < components@.len() && components@[j as int].id == cid,
{
    let mut j: usize = 0;
    while j < components.len()
        invariant
            j <= components@.len(),
            forall|k: int| 0 <= k < j ==> components@[k].id != cid,
        decreases components@.len() - j,
    {
        if components[j].id == cid {
            return Some(j);
        }
        j = j + 1;
    }
    None
}

/// Sets the component `cid` to `data`.
fn set_component(components: &mut Vec<Component>, cid: ComponentId, data: Vec<u8>)
    requires
        distinct_components(old(components)@),
    ensures
        distinct_components(final(components)@),
        components_of(final(components)@) == components_of(old(components)@).insert(cid, data@),
{
    let ghost before = components@;
    let ghost expected = components_of(before).insert(cid, data@);
    match find_component(components, cid) {
        Some(j) => {
            components[j].data = data;
            proof {
                assert forall|k: int| 0 <= k < components@.len() implies (#[trigger] components@[k]).id
                    == before[k].id && (k != j ==> components@[k].data == before[k].data) by {}
            }
        },
        None => {
            components.push(Component { id: cid, data });
            proof {
                assert forall|k: int| 0 <= k < before.len() implies #[trigger] components@[k]
                    == before[k] by {}
                assert forall|a: int, b: int|
                    0 <= a < components@.len() && 0 <= b < components@.len() && a
                        != b implies components@[a].id != components@[b].id by {
                    if a < before.len() && b == before.len() {
                        assert(before[a].id != cid);
                    }
                    if b < before.len() && a == before.len() {
                        assert(before[b].id != cid);
                    }
                }
            }
        },
    }
    proof {
        let after = components@;
        assert forall|c: ComponentId| components_of(after).contains_key(c) <==> #[trigger] expected.contains_key(
            c,
        ) by {
            if components_of(before).contains_key(c) {
                let k = choose|k: int| 0 <= k < before.len() && before[k].id == c;
                assert(after[k].id == c);
            }
            if c == cid {
                if components_of(before).contains_key(cid) {
                    let k = choose|k: int| 0 <= k < before.len() && before[k].id == cid;
                    assert(after[k].id == cid);
                } else {
                    assert(after[before.len() as int].id == cid);
                }
            }
            if components_of(after).contains_key(c) {
                let k = choose|k: int| 0 <= k < after.len() && after[k].id == c;
                if k < before.len() {
                    assert(before[k].id == c);
                }
            }
        }
        assert forall|c: ComponentId| #[trigger] components_of(after).contains_key(c) implies components_of(
            after,
        )[c] == expected[c] by {
            let k = choose|k: int| 0 <= k < after.len() && after[k].id == c;
            lemma_component(after, k);
            if c != cid {
                assert(k < before.len());
                lemma_component(before, k);
            }
        }
        assert(components_of(after) =~= expected);
    }
}

/// Removes the component `cid`, if there is one.
fn unset_component(components: &mut Vec<Component>, cid: ComponentId)
    requires
        distinct_components(old(components)@),
    ensures
        distinct_components(final(components)@),
        components_of(final(components)@) == components_of(old(components)@).remove(cid),
{
    let ghost before = components@;
    let ghost expected = components_of(before).remove(cid);
    match find_component(components, cid) {
        None => {
            assert(components_of(before) =~= expected);
        },
        Some(j) => {
            components.remove(j);
            proof {
                let after = components@;
                assert forall|k: int| 0 <= k < after.len() implies #[trigger] after[k] == before[if k
                    < j {
                    k
                } else {
                    k + 1
                }] by {}
                assert(distinct_components(after));
                assert forall|c: ComponentId| components_of(after).contains_key(c) <==> #[trigger] expected.contains_key(
                    c,
                ) by {
                    if expected.contains_key(c) {
                        let k = choose|k: int| 0 <= k < before.len() && before[k].id == c;
                        if k < j {
                            assert(after[k].id == c);
                        } else {
                            assert(after[k - 1].id == c);
                        }
                    }
                    if components_of(after).contains_key(c) {
                        let k = choose|k: int| 0 <= k < after.len() && after[k].id == c;
                        let kk = if k < j {
                            k
                        } else {
                            k + 1
                        };
                        assert(before[kk].id == c);
                    }
                }
                assert forall|c: ComponentId| #[trigger] components_of(after).contains_key(c) implies components_of(
                    after,
                )[c] == expected[c] by {
                    let k = choose|k: int| 0 <= k < after.len() && after[k].id == c;
                    lemma_component(after, k);
                    lemma_component(
                        before,
                        if k < j {
                            k
                        } else {
                            k + 1
                        },
                    );
                }
                assert(components_of(after) =~= expected);
            }
        },
    }
}

/// A query over a world.
pub struct Query {
    params: crate::query::QueryParameters,
}

/// The entities that matched a query, in ascending order.
pub struct QueryResult {
    entities: Vec<EntityId>,
}

impl Query {
    /// A query for the entities that have the components of `params`.
    pub fn new(params: crate::query::QueryParameters) -> (query: Query)
        ensures
            query.wanted() == params.view@,
    {
        Query { params }
    }

    /// The components that an entity must have to match.
    pub closed spec fn wanted(&self) -> Seq<ComponentId> {
        self.params.view@
    }

    /// The entities of `w` that have every component asked for: each such
    /// entity once, in ascending order, and no other.
    pub fn evaluate(&self, w: &World) -> (result: QueryResult)
        requires
            w.wf(),
        ensures
            forall|e: EntityId|
                result@.contains(e) <==> w@.entities.contains_key(e) && has_all(
                    w@.entities[e],
                    self.wanted(),
                ),
            forall|i: int, j: int| 0 <= i < j < result@.len() ==> result@[i] < result@[j],
    {
        let mut entities: Vec<EntityId> = Vec::new();
        let mut i: usize = 0;
        while i < w.entities.len()
            invariant
                i <= w.entities@.len(),
                w.wf(),
                forall|k: int| 0 <= k < entities@.len() ==> exists|m: int|
                    0 <= m < i && w.entities@[m].id == #[trigger] entities@[k] && has_all(
                        components_of(w.entities@[m].components@),
                        self.wanted(),
                    ),
                forall|m: int|
                    0 <= m < i && has_all(
                        components_of((#[trigger] w.entities@[m]).components@),
                        self.wanted(),
                    ) ==> entities@.contains(w.entities@[m].id),
                forall|a: int, b: int| 0 <= a < b < entities@.len() ==> entities@[a] < entities@[b],
                forall|k: int|
                    0 <= k < entities@.len() && i < w.entities@.len() ==> #[trigger] entities@[k]
                        < w.entities@[i as int].id,
            decreases w.entities@.len() - i,
        {
            let ghost before = entities@;
            let matched = entity_matches(&w.entities[i].components, &self.params.view);
            if matched {
                entities.push(w.entities[i].id);
                proof {
                    assert(entities@[before.len() as int] == w.entities@[i as int].id);
                    assert forall|m: int|
                        0 <= m < i + 1 && has_all(
                            components_of((#[trigger] w.entities@[m]).components@),
                            self.wanted(),
                        ) implies entities@.contains(w.entities@[m].id) by {
                        if m < i {
                            assert(before.contains(w.entities@[m].id));
                            let k = choose|k: int| 0 <= k < before.len() && before[k] == w.entities@[m].id;
                            assert(entities@[k] == w.entities@[m].id);
                        }
                    }
                }
            }
            proof {
                assert forall|k: int|
                    0 <= k < entities@.len() && i + 1 < w.entities@.len() implies #[trigger] entities@[k]
                    < w.entities@[i + 1].id by {
                    assert(w.entities@[i as int].id < w.entities@[i + 1].id);
                }
            }
            i = i + 1;
        }
        proof {
            assert forall|e: EntityId|
                entities@.contains(e) <==> w@.entities.contains_key(e) && has_all(
                    w@.entities[e],
                    self.wanted(),
                ) by {
                if entities@.contains(e) {
                    let k = choose|k: int| 0 <= k < entities@.len() && entities@[k] == e;
                    let m = choose|m: int|
                        0 <= m < i && w.entities@[m].id == entities@[k] && has_all(
                            components_of(w.entities@[m].components@),
                            self.wanted(),
                        );
                    w.lemma_entity(m);
                }
                if w@.entities.contains_key(e) && has_all(w@.entities[e], self.wanted()) {
                    let m = choose|m: int| 0 <= m < w.entities@.len() && w.entities@[m].id == e;
                    w.lemma_entity(m);
                    assert(entities@.contains(w.entities@[m].id));
                }
            }
        }
        QueryResult { entities }
    }
}

/// Whether the components hold every identifier of `wanted`.
fn entity_matches(components: &Vec<Component>, wanted: &Layout) -> (r: bool)
    ensures
        r == has_all(components_of(components@), wanted@),
{
    let ids = wanted.ids();
    let mut i: usize = 0;
    while i < ids.len()
        invariant
            i <= ids@.len(),
            ids@ == wanted@,
            forall|k: int| 0 <= k < i ==> components_of(components@).contains_key(#[trigger] ids@[k]),
        decreases ids@.len() - i,
    {
        if find_component(components, ids[i]).is_none() {
            assert(!components_of(components@).contains_key(wanted@[i as int]));
            return false;
        }
        i = i + 1;
    }
    true
}

impl View for QueryResult {
    type V = Seq<EntityId>;

    /// The entities that matched, in ascending order.
    closed spec fn view(&self) -> Seq<EntityId> {
        self.entities@
    }
}

impl QueryResult {
    /// The number of entities that matched.
    pub fn len(&self) -> (n: usize)
        ensures
            n == self@.len(),
    {
        self.entities.len()
    }

    /// The entities that matched.
    pub fn get_entities(&self) -> (entities: Vec<EntityId>)
        ensures
            entities@ == self@,
    {
        let mut out: Vec<EntityId> = Vec::new();
        let mut i: usize = 0;
        while i < self.entities.len()
            invariant
                i <= self.entities@.len(),
                out@ == self.entities@.take(i as int),
            decreases self.entities@.len() - i,
        {
            out.push(self.entities[i]);
            assert(out@ =~= self.entities@.take(i + 1));
            i = i + 1;
        }
        assert(out@ =~= self.entities@);
        out
    }

    /// Writes the entities that matched into `dst`, which has room for
    /// exactly as many.
    pub fn write_entities(&self, dst: &mut Vec<EntityId>)
        requires
            old(dst)@.len() == self@.len(),
        ensures
            final(dst)@ == self@,
    {
        let mut i: usize = 0;
        while i < self.entities.len()
            invariant
                i <= self.entities@.len(),
                dst@.len() == self.entities@.len(),
                forall|k: int| 0 <= k < i ==> dst@[k] == self.entities@[k],
            decreases self.entities@.len() - i,
        {
            dst.set(i, self.entities[i]);
            i = i + 1;
        }
        assert(dst@ =~= self.entities@);
    }

    /// The bytes of the component `cid` of each entity that matched, in the
    /// order of the entities; `None` where one of them lacks the component.
    pub fn get_component_data(&self, w: &World, cid: ComponentId) -> (r: Option<Vec<Vec<u8>>>)
        requires
            w.wf(),
        ensures
            r is Some <==> forall|i: int|
                0 <= i < self@.len() ==> w@.entities.contains_key(#[trigger] self@[i])
                    && w@.entities[self@[i]].contains_key(cid),
            r matches Some(datas) ==> datas@.len() == self@.len() && forall|i: int|
                0 <= i < self@.len() ==> (#[trigger] datas@[i])@ == w@.entities[self@[i]][cid],
    {
        let mut datas: Vec<Vec<u8>> = Vec::new();
        let mut i: usize = 0;
        while i < self.entities.len()
            invariant
                i <= self.entities@.len(),
                w.wf(),
                datas@.len() == i,
                forall|k: int|
                    0 <= k < i ==> w@.entities.contains_key(#[trigger] self@[k])
                        && w@.entities[self@[k]].contains_key(cid),
                forall|k: int| 0 <= k < i ==> (#[trigger] datas@[k])@ == w@.entities[self@[k]][cid],
            decreases self.entities@.len() - i,
        {
            match w.get_data(self.entities[i], cid) {
                None => {
                    assert(!(w@.entities.contains_key(self@[i as int])
                        && w@.entities[self@[i as int]].contains_key(cid)));
                    return None;
                },
                Some(data) => {
                    datas.push(vstd::slice::slice_to_vec(data.as_slice()));
                },
            }
            i = i + 1;
        }
        Some(datas)
    }
}

} // verus!
