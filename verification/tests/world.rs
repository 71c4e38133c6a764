use hearth::component::{AsComponentData, ComponentData, ComponentId, Layout};
use hearth::query::QueryParameters;
use hearth::world::{EntityId, Query, World};

/// A `u8` component.
struct Byte(u8);

impl AsComponentData for Byte {
    fn as_component_data(&self) -> ComponentData<'_> {
        ComponentData { id: ComponentId::from_type::<u8>(), data: std::slice::from_ref(&self.0) }
    }
}

/// A `u32` component, kept as its bytes.
struct Word([u8; 4]);

fn word(value: u32) -> Word {
    Word(value.to_ne_bytes())
}

fn read_word(bytes: &[u8]) -> u32 {
    u32::from_ne_bytes([bytes[0], bytes[1], bytes[2], bytes[3]])
}

impl AsComponentData for Word {
    fn as_component_data(&self) -> ComponentData<'_> {
        ComponentData { id: ComponentId::from_type::<u32>(), data: &self.0 }
    }
}

fn byte_of(w: &World, e: EntityId) -> Option<u8> {
    w.get_data(e, ComponentId::from_type::<u8>()).map(|data| data[0])
}

fn word_of(w: &World, e: EntityId) -> Option<u32> {
    w.get_data(e, ComponentId::from_type::<u32>()).map(|data| read_word(data))
}

#[test]
fn new_world() {
    World::new();
}

#[test]
fn spawn() {
    let mut w = World::new();
    let e1 = w.spawn();
    let e2 = w.spawn();
    assert_ne!(e1, e2);
}

#[test]
fn insert_get() {
    let mut w = World::new();
    let e = w.spawn();
    let c = 42u8;
    w.insert(e, Byte(c));
    assert_eq!(byte_of(&w, e), Some(c));
}

#[test]
fn insert_get_mut() {
    let mut w = World::new();
    let e = w.spawn();
    let c = 42u8;
    let d = 36u8;
    let result = c + d;
    w.insert(e, Byte(c));
    let current = byte_of(&w, e).unwrap();
    w.insert(e, Byte(current + d));
    assert_eq!(byte_of(&w, e), Some(result));
}

#[test]
fn insert_remove() {
    let mut w = World::new();
    let e = w.spawn();
    let c = 42u8;
    w.insert(e, Byte(c));
    w.remove::<u8>(e);
    assert_eq!(byte_of(&w, e), None);
}

#[test]
fn insert_layout() {
    let mut w = World::new();
    let e = w.spawn();
    let c = 42u8;
    let cid = ComponentId::from_val_type(&c);
    w.insert(e, Byte(c));
    assert_eq!(w.get_layout(e), Some(vec![cid].into()));
}

#[test]
fn push_single_get() {
    let mut w = World::new();
    let val = 42u8;
    let e = w.push((Byte(val),));
    assert_eq!(byte_of(&w, e), Some(val));
}

#[test]
fn push_tuple_get() {
    let mut w = World::new();
    let val1 = 42u8;
    let val2 = 320u32;
    let e = w.push((Byte(val1), word(val2)));
    assert_eq!(byte_of(&w, e), Some(val1));
    assert_eq!(word_of(&w, e), Some(val2));
}

#[test]
fn push_tuple_layout() {
    let mut w = World::new();
    let val1 = 42u8;
    let val2 = 320u32;
    let e = w.push((Byte(val1), word(val2)));
    let cid1 = ComponentId::from_val_type(&val1);
    let cid2 = ComponentId::from_val_type(&val2);
    assert_eq!(w.get_layout(e), Some(vec![cid1, cid2].into()));
}

#[test]
fn query_single() {
    let mut w = World::new();
    let val = 42u8;
    let e = w.spawn();
    w.insert(e, Byte(val));
    let cid = ComponentId::from_val_type(&val);

    let query_params = QueryParameters { view: Layout::from(vec![cid]) };

    let query = Query::new(query_params);
    let result = query.evaluate(&w);

    assert_eq!(result.get_entities(), vec![e]);
    assert_eq!(result.get_component_data(&w, cid), Some(vec![vec![val]]));
}

#[test]
fn query_iter() {
    let mut w = World::new();
    let e = w.spawn();
    let val1 = 360u32;
    let val2 = 42u8;
    w.insert(e, word(val1));
    w.insert(e, Byte(val2));

    let mut params = QueryParameters::default();
    params.include_type::<u32>();
    params.include_type::<u8>();
    let query = Query::new(params);
    for query_e in query.evaluate(&w).get_entities() {
        assert_eq!(e, query_e);
        let c1 = word_of(&w, query_e).unwrap();
        let c2 = byte_of(&w, query_e).unwrap();
        assert_eq!(c1, val1);
        assert_eq!(c2, val2);

        w.insert(query_e, word(c1 + c2 as u32));
    }

    assert_eq!(word_of(&w, e), Some(val1 + val2 as u32));
}

#[test]
fn query_unmatched() {
    let mut w = World::new();
    let e = w.spawn();
    let c = 360u32;
    w.insert(e, word(c));

    let mut params = QueryParameters::default();
    params.include_type::<u8>();
    let query = Query::new(params);
    for _ in query.evaluate(&w).get_entities() {
        panic!("Entities unexpectedly matched query.");
    }
}

#[test]
fn world_destroy_removes_entity_and_components() {
    let mut w = World::new();
    let a = w.spawn();
    let b = w.spawn();
    w.insert(a, Byte(1));
    w.insert(b, Byte(2));
    w.destroy(a);
    assert!(!w.contains(a));
    assert_eq!(byte_of(&w, a), None);
    assert_eq!(w.get_layout(a), None);
    assert_eq!(byte_of(&w, b), Some(2));
    assert_eq!(w.len(), 1);
    w.destroy(a);
    let c = w.spawn();
    assert_eq!((a, b, c), (0, 1, 2));
    w.insert(a, Byte(9));
    assert_eq!(byte_of(&w, a), None);
}

#[test]
fn world_push_keeps_the_later_of_two() {
    let mut w = World::new();
    let e = w.push((Byte(1), word(5), Byte(2)));
    assert_eq!(byte_of(&w, e), Some(2));
    assert_eq!(w.get_layout(e).unwrap().len(), 2);
    let empty = w.push(());
    assert_eq!(w.get_layout(empty), Some(Layout::default()));
}

#[test]
fn query_results_ascend_and_skip_nonmatching() {
    let mut w = World::new();
    let a = w.push((Byte(1),));
    let _b = w.push((word(2),));
    let c = w.push((Byte(3), word(4)));
    let cid = ComponentId::from_type::<u8>();
    let query = Query::new(QueryParameters { view: Layout::from(vec![cid]) });
    let result = query.evaluate(&w);
    assert_eq!(result.len(), 2);
    assert_eq!(result.get_entities(), vec![a, c]);
    let mut dst = vec![0; 2];
    result.write_entities(&mut dst);
    assert_eq!(dst, vec![a, c]);
    assert_eq!(result.get_component_data(&w, cid), Some(vec![vec![1], vec![3]]));
    assert_eq!(result.get_component_data(&w, ComponentId::from_type::<u32>()), None);
    let all = Query::new(QueryParameters::default()).evaluate(&w);
    assert_eq!(all.len(), 3);
}

#[test]
fn world_push_data_sets_the_components_in_order() {
    let mut w = World::new();
    let a = ComponentId::custom_from_hash(1);
    let b = ComponentId::custom_from_hash(2);
    let first = [1u8, 2];
    let second = [3u8];
    let third = [4u8, 5, 6];
    let datas = vec![
        ComponentData { id: a, data: &first },
        ComponentData { id: b, data: &second },
        ComponentData { id: a, data: &third },
    ];
    let e = w.push_data(&datas);
    assert_eq!(e, 0);
    assert_eq!(w.get_data(e, a), Some(&vec![4u8, 5, 6]));
    assert_eq!(w.get_data(e, b), Some(&vec![3u8]));
    assert_eq!(w.get_layout(e), Some(Layout::from(vec![b, a])));
    let empty = w.push_data(&Vec::new());
    assert_eq!(empty, 1);
    assert_eq!(w.get_layout(empty), Some(Layout::default()));
    assert_eq!(w.len(), 2);
}

#[test]
fn world_insert_stores_what_the_component_gives() {
    let mut w = World::new();
    let e = w.spawn();
    let cid = ComponentId::custom_from_hash(7);
    let bytes = [9u8, 8, 7];
    w.insert(e, ComponentData { id: cid, data: &bytes });
    assert_eq!(w.get_data(e, cid), Some(&vec![9u8, 8, 7]));
    w.insert(e, ComponentData { id: cid, data: &bytes[..1] });
    assert_eq!(w.get_data(e, cid), Some(&vec![9u8]));
    assert_eq!(w.get_layout(e).unwrap().len(), 1);
}
