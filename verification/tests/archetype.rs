use archflow_logic::ecs::archetype::{Archetype, ArchetypeId, ArchetypeStorage, ComponentColumn};
use archflow_logic::ecs::component::ComponentId;
use std::collections::BTreeMap;

#[derive(Clone, Copy, Debug, PartialEq)]
struct Position {
    x: f32,
    y: f32,
}

#[derive(Clone, Copy, Debug, PartialEq)]
struct Velocity {
    dx: f32,
    dy: f32,
}

#[derive(Clone, Copy, Debug, PartialEq)]
struct Health {
    current: u32,
    max: u32,
}

fn pos_bytes(p: Position) -> Vec<u8> {
    let mut v = p.x.to_le_bytes().to_vec();
    v.extend_from_slice(&p.y.to_le_bytes());
    v
}

fn pos_of(bytes: &[u8]) -> Position {
    Position {
        x: f32::from_le_bytes([bytes[0], bytes[1], bytes[2], bytes[3]]),
        y: f32::from_le_bytes([bytes[4], bytes[5], bytes[6], bytes[7]]),
    }
}

fn get_pos(column: &ComponentColumn, index: usize) -> Option<Position> {
    column.get_bytes(index).map(pos_of)
}

fn strides(map: BTreeMap<ComponentId, usize>) -> Vec<(ComponentId, usize)> {
    map.into_iter().collect()
}

#[test]
fn test_archetype_id_stability() {
    let types = vec![ComponentId::of::<Position>(), ComponentId::of::<Velocity>()];

    let id1 = ArchetypeId::from_types(&types);
    let id2 = ArchetypeId::from_types(&types);

    assert_eq!(id1, id2, "Same types should produce same ID");

    let types_reversed = vec![ComponentId::of::<Velocity>(), ComponentId::of::<Position>()];
    let _id3 = ArchetypeId::from_types(&types_reversed);
}

#[test]
fn test_archetype_id_different_types() {
    let types1 = vec![ComponentId::of::<Position>()];
    let types2 = vec![ComponentId::of::<Velocity>()];

    let id1 = ArchetypeId::from_types(&types1);
    let id2 = ArchetypeId::from_types(&types2);

    assert_ne!(id1, id2, "Different types should produce different IDs");
}

#[test]
fn test_component_column_creation() {
    let column = ComponentColumn::new(core::mem::size_of::<Position>());

    assert_eq!(column.len(), 0);
    assert!(column.is_empty());
    assert_eq!(column.stride(), core::mem::size_of::<Position>());
}

#[test]
fn test_component_column_with_capacity() {
    let column = ComponentColumn::with_capacity(core::mem::size_of::<Position>(), 10);

    assert_eq!(column.len(), 0);
    assert!(column.byte_capacity() >= 10 * core::mem::size_of::<Position>());
}

#[test]
fn test_component_column_push_get() {
    let mut column = ComponentColumn::new(core::mem::size_of::<Position>());

    let pos1 = Position { x: 1.0, y: 2.0 };
    let pos2 = Position { x: 3.0, y: 4.0 };

    column.push_bytes(&pos_bytes(pos1));
    column.push_bytes(&pos_bytes(pos2));

    assert_eq!(column.len(), 2);
    assert_eq!(get_pos(&column, 0), Some(pos1));
    assert_eq!(get_pos(&column, 1), Some(pos2));
    assert_eq!(get_pos(&column, 2), None);
}

#[test]
fn test_component_column_set() {
    let mut column = ComponentColumn::new(core::mem::size_of::<Position>());

    column.push_bytes(&pos_bytes(Position { x: 1.0, y: 2.0 }));
    column.push_bytes(&pos_bytes(Position { x: 3.0, y: 4.0 }));

    column.set_bytes(0, &pos_bytes(Position { x: 10.0, y: 20.0 }));

    assert_eq!(get_pos(&column, 0), Some(Position { x: 10.0, y: 20.0 }));
    assert_eq!(get_pos(&column, 1), Some(Position { x: 3.0, y: 4.0 }));
}

#[test]
fn test_component_column_get_mut() {
    let mut column = ComponentColumn::new(core::mem::size_of::<Position>());

    column.push_bytes(&pos_bytes(Position { x: 1.0, y: 2.0 }));

    if let Some(mut pos) = get_pos(&column, 0) {
        pos.x = 10.0;
        pos.y = 20.0;
        column.set_bytes(0, &pos_bytes(pos));
    }

    assert_eq!(get_pos(&column, 0), Some(Position { x: 10.0, y: 20.0 }));
}

#[test]
fn test_component_column_remove() {
    let mut column = ComponentColumn::new(core::mem::size_of::<Position>());

    column.push_bytes(&pos_bytes(Position { x: 1.0, y: 2.0 }));
    column.push_bytes(&pos_bytes(Position { x: 3.0, y: 4.0 }));
    column.push_bytes(&pos_bytes(Position { x: 5.0, y: 6.0 }));

    let removed = pos_of(&column.remove_bytes(1));

    assert_eq!(removed, Position { x: 3.0, y: 4.0 });
    assert_eq!(column.len(), 2);
    assert_eq!(get_pos(&column, 0), Some(Position { x: 1.0, y: 2.0 }));
    assert_eq!(get_pos(&column, 1), Some(Position { x: 5.0, y: 6.0 }));
}

#[test]
fn test_component_column_swap() {
    let mut column = ComponentColumn::new(core::mem::size_of::<Position>());

    column.push_bytes(&pos_bytes(Position { x: 1.0, y: 2.0 }));
    column.push_bytes(&pos_bytes(Position { x: 3.0, y: 4.0 }));

    column.swap(0, 1);

    assert_eq!(get_pos(&column, 0), Some(Position { x: 3.0, y: 4.0 }));
    assert_eq!(get_pos(&column, 1), Some(Position { x: 1.0, y: 2.0 }));
}

#[test]
fn test_component_column_clear() {
    let mut column = ComponentColumn::new(core::mem::size_of::<Position>());

    column.push_bytes(&pos_bytes(Position { x: 1.0, y: 2.0 }));
    column.push_bytes(&pos_bytes(Position { x: 3.0, y: 4.0 }));

    column.clear();

    assert_eq!(column.len(), 0);
    assert!(column.is_empty());
}

#[test]
fn test_batch_iteration() {
    let mut column = ComponentColumn::new(core::mem::size_of::<f32>());

    for i in 0..10 {
        column.push_bytes(&(i as f32).to_le_bytes());
    }

    let mut batches = Vec::new();
    let mut iter = column.iter_batch(3);
    while let Some(batch) = iter.next() {
        let values: Vec<f32> = batch
            .chunks(4)
            .map(|b| f32::from_le_bytes([b[0], b[1], b[2], b[3]]))
            .collect();
        batches.push(values);
    }

    assert_eq!(batches.len(), 4); // 3 + 3 + 3 + 1
    assert_eq!(batches[0], vec![0.0, 1.0, 2.0]);
    assert_eq!(batches[1], vec![3.0, 4.0, 5.0]);
    assert_eq!(batches[2], vec![6.0, 7.0, 8.0]);
    assert_eq!(batches[3], vec![9.0]);
}

#[test]
fn test_batch_iteration_empty() {
    let column = ComponentColumn::new(core::mem::size_of::<f32>());

    let mut count = 0;
    let mut iter = column.iter_batch(4);
    while let Some(_batch) = iter.next() {
        count += 1;
    }

    assert_eq!(count, 0);
}

#[test]
fn test_archetype_creation() {
    let types = vec![ComponentId::of::<Position>(), ComponentId::of::<Velocity>()];

    let archetype = Archetype::new(types.clone());

    assert_eq!(archetype.len(), 0);
    assert!(archetype.is_empty());
    assert_eq!(archetype.types(), &types);
    assert!(archetype.has_component(ComponentId::of::<Position>()));
    assert!(archetype.has_component(ComponentId::of::<Velocity>()));
    assert!(!archetype.has_component(ComponentId::of::<Health>()));
}

#[test]
fn test_archetype_add_column() {
    let mut archetype = Archetype::new(vec![ComponentId::of::<Position>()]);

    archetype.add_column(ComponentId::of::<Position>(), core::mem::size_of::<Position>());

    assert_eq!(archetype.len(), 0);
}

#[test]
fn test_archetype_add_remove_entity() {
    let mut archetype = Archetype::new(vec![ComponentId::of::<Position>(), ComponentId::of::<Velocity>()]);

    archetype.add_column(ComponentId::of::<Position>(), core::mem::size_of::<Position>());
    archetype.add_column(ComponentId::of::<Velocity>(), core::mem::size_of::<Velocity>());

    let mut data1 = BTreeMap::new();
    data1.insert(ComponentId::of::<Position>(), vec![0u8; 8]);
    data1.insert(ComponentId::of::<Velocity>(), vec![0u8; 8]);

    let mut data2 = BTreeMap::new();
    data2.insert(ComponentId::of::<Position>(), vec![0u8; 8]);
    data2.insert(ComponentId::of::<Velocity>(), vec![0u8; 8]);

    let idx1 = archetype.add_entity(0, data1.into_iter().collect());
    let idx2 = archetype.add_entity(1, data2.into_iter().collect());

    assert_eq!(archetype.len(), 2);
    assert_eq!(idx1, 0);
    assert_eq!(idx2, 1);
    assert_eq!(archetype.get_entity_id(0), Some(0));
    assert_eq!(archetype.get_entity_id(1), Some(1));

    let removed_id = archetype.remove_entity(0);
    assert_eq!(removed_id, 1); // Last entity swapped to position 0
    assert_eq!(archetype.len(), 1);
}

#[test]
fn test_archetype_clear() {
    let mut archetype = Archetype::new(vec![ComponentId::of::<Position>()]);

    archetype.add_column(ComponentId::of::<Position>(), core::mem::size_of::<Position>());

    let mut data = BTreeMap::new();
    data.insert(ComponentId::of::<Position>(), vec![0u8; 8]);

    archetype.add_entity(0, data.into_iter().collect());

    assert_eq!(archetype.len(), 1);

    archetype.clear();

    assert_eq!(archetype.len(), 0);
    assert!(archetype.is_empty());
}

#[test]
fn test_archetype_iter_entities() {
    let mut archetype = Archetype::new(vec![ComponentId::of::<Position>()]);

    archetype.add_column(ComponentId::of::<Position>(), core::mem::size_of::<Position>());

    let mut data = BTreeMap::new();
    data.insert(ComponentId::of::<Position>(), vec![0u8; 8]);

    archetype.add_entity(0, data.clone().into_iter().collect());
    archetype.add_entity(5, data.into_iter().collect());

    let entities: Vec<usize> = archetype.iter_entities().copied().collect();

    assert_eq!(entities, vec![0, 5]);
}

#[test]
fn test_archetype_storage_creation() {
    let storage = ArchetypeStorage::new();

    assert_eq!(storage.archetype_count(), 0);
    assert!(storage.is_empty());
}

#[test]
fn test_archetype_storage_add_entity() {
    let mut storage = ArchetypeStorage::new();

    let mut types = BTreeMap::new();
    types.insert(ComponentId::of::<Position>(), core::mem::size_of::<Position>());
    types.insert(ComponentId::of::<Velocity>(), core::mem::size_of::<Velocity>());

    let arch_id = storage.add_entity(0, strides(types));

    assert_eq!(storage.archetype_count(), 1);
    assert!(!storage.is_empty());
    assert_eq!(storage.get_archetype_id(0), Some(arch_id));

    let archetype = storage.get_archetype(0);
    assert!(archetype.is_some());
    assert_eq!(archetype.unwrap().len(), 1);
}

#[test]
fn test_archetype_storage_add_same_archetype() {
    let mut storage = ArchetypeStorage::new();

    let mut types1 = BTreeMap::new();
    types1.insert(ComponentId::of::<Position>(), core::mem::size_of::<Position>());
    types1.insert(ComponentId::of::<Velocity>(), core::mem::size_of::<Velocity>());

    let mut types2 = BTreeMap::new();
    types2.insert(ComponentId::of::<Position>(), core::mem::size_of::<Position>());
    types2.insert(ComponentId::of::<Velocity>(), core::mem::size_of::<Velocity>());

    let id1 = storage.add_entity(0, strides(types1));
    let id2 = storage.add_entity(1, strides(types2));

    assert_eq!(id1, id2);
    assert_eq!(storage.archetype_count(), 1);

    let archetype = storage.get_archetype(0).unwrap();
    assert_eq!(archetype.len(), 2);
}

#[test]
fn test_archetype_storage_add_different_archetypes() {
    let mut storage = ArchetypeStorage::new();

    let mut types1 = BTreeMap::new();
    types1.insert(ComponentId::of::<Position>(), core::mem::size_of::<Position>());

    let mut types2 = BTreeMap::new();
    types2.insert(ComponentId::of::<Position>(), core::mem::size_of::<Position>());
    types2.insert(ComponentId::of::<Velocity>(), core::mem::size_of::<Velocity>());

    let id1 = storage.add_entity(0, strides(types1));
    let id2 = storage.add_entity(1, strides(types2));

    assert_ne!(id1, id2);
    assert_eq!(storage.archetype_count(), 2);
}

#[test]
fn test_archetype_storage_remove_entity() {
    let mut storage = ArchetypeStorage::new();

    let mut types = BTreeMap::new();
    types.insert(ComponentId::of::<Position>(), core::mem::size_of::<Position>());

    storage.add_entity(0, strides(types));

    let removed_id = storage.remove_entity(0);

    assert!(removed_id.is_some());
    assert_eq!(storage.archetype_count(), 0); // Archetype removed when empty
    assert_eq!(storage.get_archetype_id(0), None);
}

#[test]
fn test_archetype_storage_remove_nonexistent() {
    let mut storage = ArchetypeStorage::new();

    let removed = storage.remove_entity(999);

    assert!(removed.is_none());
}

#[test]
fn test_archetype_storage_get_archetype() {
    let mut storage = ArchetypeStorage::new();

    let mut types = BTreeMap::new();
    types.insert(ComponentId::of::<Position>(), core::mem::size_of::<Position>());

    storage.add_entity(0, strides(types));

    let archetype = storage.get_archetype(0);
    assert!(archetype.is_some());

    let archetype = storage.get_archetype(1);
    assert!(archetype.is_none());
}

#[test]
fn test_archetype_storage_get_archetype_mut() {
    let mut storage = ArchetypeStorage::new();

    let mut types = BTreeMap::new();
    types.insert(ComponentId::of::<Position>(), core::mem::size_of::<Position>());

    storage.add_entity(0, strides(types));

    if let Some(archetype) = storage.get_archetype_mut(0) {
        assert_eq!(archetype.len(), 1);
    }
}

#[test]
fn test_archetype_storage_clear() {
    let mut storage = ArchetypeStorage::new();

    let mut types1 = BTreeMap::new();
    types1.insert(ComponentId::of::<Position>(), core::mem::size_of::<Position>());

    let mut types2 = BTreeMap::new();
    types2.insert(ComponentId::of::<Velocity>(), core::mem::size_of::<Velocity>());

    storage.add_entity(0, strides(types1));
    storage.add_entity(1, strides(types2));

    assert_eq!(storage.archetype_count(), 2);

    storage.clear();

    assert_eq!(storage.archetype_count(), 0);
    assert!(storage.is_empty());
}

#[test]
fn test_archetype_storage_iter_archetypes() {
    let mut storage = ArchetypeStorage::new();

    let mut types1 = BTreeMap::new();
    types1.insert(ComponentId::of::<Position>(), core::mem::size_of::<Position>());

    let mut types2 = BTreeMap::new();
    types2.insert(ComponentId::of::<Velocity>(), core::mem::size_of::<Velocity>());

    storage.add_entity(0, strides(types1));
    storage.add_entity(1, strides(types2));

    let count = storage.iter_archetypes().len();
    assert_eq!(count, 2);
}

#[test]
fn test_archetype_storage_default() {
    let storage = ArchetypeStorage::default();

    assert!(storage.is_empty());
    assert_eq!(storage.archetype_count(), 0);
}

#[test]
fn archetype_storage_order_of_pairs_does_not_matter() {
    let mut storage = ArchetypeStorage::new();
    let p = ComponentId::of::<Position>();
    let v = ComponentId::of::<Velocity>();
    let id1 = storage.add_entity(0, vec![(p, 8), (v, 8)]);
    let id2 = storage.add_entity(1, vec![(v, 8), (p, 8)]);
    assert_eq!(id1, id2);
    assert_eq!(storage.get_archetype(1).unwrap().len(), 2);
    // The archetype's types are ordered and its identifier is their hash.
    let types = storage.get_archetype(0).unwrap().types().to_vec();
    assert!(types[0] < types[1]);
    assert_eq!(ArchetypeId::from_types(&types), id1);
}

#[test]
fn archetype_storage_remove_swaps_last_entity_into_place() {
    let mut storage = ArchetypeStorage::new();
    let p = ComponentId::of::<Position>();
    for e in [3usize, 7, 9] {
        storage.add_entity(e, vec![(p, 8)]);
    }
    let id = storage.get_archetype_id(3).unwrap();
    assert_eq!(storage.remove_entity(3), Some(id));
    let arch = storage.get_archetype(7).unwrap();
    assert_eq!(arch.get_entity_id(0), Some(9));
    assert_eq!(arch.get_entity_id(1), Some(7));
    assert_eq!(storage.get_archetype_id(3), None);
    assert_eq!(storage.remove_entity(3), None);
}

#[test]
fn archetype_storage_try_add_refuses_stored_entity_and_duplicates() {
    let mut storage = ArchetypeStorage::new();
    let p = ComponentId::of::<Position>();
    let v = ComponentId::of::<Velocity>();
    assert!(storage.try_add_entity(0, vec![(p, 8)]).is_some());
    // Already stored.
    assert!(storage.try_add_entity(0, vec![(v, 8)]).is_none());
    // The same type twice.
    assert!(storage.try_add_entity(1, vec![(v, 8), (v, 8)]).is_none());
    // A stride that differs from the stored archetype's.
    assert!(storage.try_add_entity(2, vec![(p, 4)]).is_none());
    assert_eq!(storage.archetype_count(), 1);
    assert_eq!(storage.get_archetype(0).unwrap().len(), 1);
}

#[test]
fn archetype_storage_new_components_are_zeroed() {
    let mut storage = ArchetypeStorage::new();
    let p = ComponentId::of::<Position>();
    storage.add_entity(4, vec![(p, 8)]);
    let arch = storage.get_archetype(4).unwrap();
    let col = arch.get_column(p).unwrap();
    assert_eq!(col.get_bytes(0), Some(&[0u8; 8][..]));
    assert_eq!(storage.pool_stats().allocations, 0);
}

#[test]
fn column_from_pool_starts_empty() {
    let mut column = ComponentColumn::from_pool(vec![0xFFu8; 8], 8);
    assert_eq!(column.len(), 0);
    assert_eq!(column.stride(), 8);
    assert!(column.get_bytes(0).is_none());
    column.push_bytes(&7u64.to_le_bytes());
    assert_eq!(column.len(), 1);
    assert_eq!(column.get_bytes(0), Some(&7u64.to_le_bytes()[..]));
}

#[test]
fn archetype_add_after_remove_keeps_alignment() {
    let id = ComponentId::of::<Health>();
    let mut archetype = Archetype::new(vec![id]);
    archetype.add_column(id, 4);
    archetype.add_entity(10, vec![(id, vec![1u8, 1, 1, 1])]);
    archetype.add_entity(11, vec![(id, vec![2u8, 2, 2, 2])]);
    let moved = archetype.remove_entity(1);
    assert_eq!(moved, 11);
    assert_eq!(archetype.len(), 1);
    let index = archetype.add_entity(12, vec![(id, vec![9u8, 9, 9, 9])]);
    assert_eq!(index, 1);
    assert_eq!(archetype.len(), 2);
    assert_eq!(archetype.get_entity_id(1), Some(12));
    let column = archetype.get_column(id).unwrap();
    assert_eq!(column.len(), 2);
    assert_eq!(column.get_bytes(0), Some(&[1u8, 1, 1, 1][..]));
    assert_eq!(column.get_bytes(1), Some(&[9u8, 9, 9, 9][..]));
}

#[test]
fn column_swap_twice_restores() {
    let mut column = ComponentColumn::new(2);
    column.push_bytes(&[1u8, 2]);
    column.push_bytes(&[3u8, 4]);
    column.push_bytes(&[5u8, 6]);
    column.swap(0, 2);
    assert_eq!(column.get_bytes(0), Some(&[5u8, 6][..]));
    assert_eq!(column.get_bytes(2), Some(&[1u8, 2][..]));
    column.swap(0, 2);
    assert_eq!(column.get_bytes(0), Some(&[1u8, 2][..]));
    assert_eq!(column.get_bytes(1), Some(&[3u8, 4][..]));
    assert_eq!(column.get_bytes(2), Some(&[5u8, 6][..]));
}

#[test]
fn archetype_storage_same_types_any_order_same_archetype() {
    let mut storage = ArchetypeStorage::new();
    let pos = ComponentId::of::<Position>();
    let vel = ComponentId::of::<Velocity>();
    let hp = ComponentId::of::<Health>();
    let id1 = storage.add_entity(0, vec![(pos, 8), (vel, 8), (hp, 8)]);
    let id2 = storage.add_entity(1, vec![(hp, 8), (pos, 8), (vel, 8)]);
    let id3 = storage.add_entity(2, vec![(vel, 8), (hp, 8), (pos, 8)]);
    assert_eq!(id1, id2);
    assert_eq!(id2, id3);
    assert_eq!(storage.archetype_count(), 1);
    let mut sorted = vec![pos, vel, hp];
    sorted.sort();
    assert_eq!(id1, ArchetypeId::from_types(&sorted));
    assert_eq!(storage.get_archetype(2).unwrap().types(), &sorted[..]);
    assert_eq!(storage.get_archetype(2).unwrap().len(), 3);
}

#[test]
fn archetype_storage_add_stored_entity_moves_it() {
    let mut storage = ArchetypeStorage::new();
    let pos = ComponentId::of::<Position>();
    let vel = ComponentId::of::<Velocity>();
    let first = storage.add_entity(7, vec![(pos, 8)]);
    let second = storage.add_entity(7, vec![(pos, 8), (vel, 8)]);
    assert_ne!(first, second);
    assert_eq!(storage.get_archetype_id(7), Some(second));
    assert_eq!(storage.archetype_count(), 1);
    assert_eq!(storage.get_archetype(7).unwrap().len(), 1);
    let third = storage.add_entity(7, vec![(vel, 8), (pos, 8)]);
    assert_eq!(third, second);
    assert_eq!(storage.archetype_count(), 1);
    assert_eq!(storage.get_archetype(7).unwrap().len(), 1);
}
