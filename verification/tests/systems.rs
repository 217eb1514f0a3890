use archflow_logic::ecs::system::{RunStep, SystemSchedule};
use archflow_logic::api::json::{SceneLoaderError, BEHAVIOR_DEFINITION_SCHEMA, COMPONENT_DEFINITION_SCHEMA, ENTITY_DEFINITION_SCHEMA, SCENE_SCHEMA};
use archflow_logic::ecs::animation_system::AnimationSystem;
use archflow_logic::ecs::archetype::ArchetypeStorage;
use archflow_logic::ecs::archetype_query::{ArchetypeQuery, QueryParam};
use archflow_logic::ecs::component::{Component, ComponentId, VecStorage};
use archflow_logic::ecs::physics_components::SelectionState;
use archflow_logic::ecs::post_process_system::PostProcessStats;
use archflow_logic::ecs::simd::{BatchPhysicsConfig, BatchPhysicsProcessor, BatchStats, MortonEncoder, SimdBatchIterator};
use archflow_logic::ecs::simd_integration::CollisionSimdDetector;
use archflow_logic::events::LogicEventType;

#[test]
fn test_error_display() {
    let error = SceneLoaderError::InvalidJson("test".to_string());
    assert!(error.to_string().contains("Invalid JSON"));

    let error = SceneLoaderError::EntityNotFound("player".to_string());
    assert!(error.to_string().contains("player"));
}

#[test]
fn error_messages_are_exact() {
    assert_eq!(SceneLoaderError::ComponentNotRegistered("Foo".to_string()).to_string(), "Component type 'Foo' not registered");
    assert_eq!(SceneLoaderError::InvalidMetadata("x".to_string()).to_string(), "Invalid metadata: x");
}

#[test]
fn test_animation_system_creation() {
    let system = AnimationSystem::new();
    assert_eq!(system.stats().animated, 0);
}

#[test]
fn test_animation_system_name() {
    let system = AnimationSystem::new();
    assert_eq!(system.name(), "AnimationSystem");
}

#[test]
fn test_animation_system_priority() {
    let system = AnimationSystem::new();
    assert_eq!(system.priority(), 50);
}

#[test]
fn test_archetype_query_new() {
    // ArchetypeQuery requires a storage; this is a compile-time check that the API works
}

struct Position;
impl Component for Position {
    type Storage = VecStorage<Position>;
}

struct Velocity;
impl Component for Velocity {
    type Storage = VecStorage<Velocity>;
}

struct Acceleration;
impl Component for Acceleration {
    type Storage = VecStorage<Acceleration>;
}

struct Rotation;
impl Component for Rotation {
    type Storage = VecStorage<Rotation>;
}

#[test]
fn test_query_param_single() {
    let ids = <(&Position,) as QueryParam>::component_ids();
    assert_eq!(ids.len(), 1);
}

#[test]
fn test_query_param_double() {
    let ids = <(&Position, &Velocity) as QueryParam>::component_ids();
    assert_eq!(ids.len(), 2);
}

#[test]
fn test_query_param_triple() {
    let ids = <(&Position, &Velocity, &Acceleration) as QueryParam>::component_ids();
    assert_eq!(ids.len(), 3);
}

#[test]
fn test_query_param_quadruple() {
    let ids = <(&Position, &Velocity, &Acceleration, &Rotation) as QueryParam>::component_ids();
    assert_eq!(ids.len(), 4);
}

#[test]
fn archetype_query_filters_and_counts() {
    let mut storage = ArchetypeStorage::new();
    let p = ComponentId::of::<Position>();
    let v = ComponentId::of::<Velocity>();
    storage.add_entity(0, vec![(p, 8)]);
    storage.add_entity(1, vec![(p, 8), (v, 8)]);
    storage.add_entity(2, vec![(p, 8)]);

    let query = ArchetypeQuery::new::<(&Position,)>(&storage);
    assert_eq!(query.entity_count(), 3);
    assert_eq!(query.len(), 2);
    assert!(!query.is_empty());
    assert_eq!(query.matching_archetype_ids().len(), 2);

    let with_v = ArchetypeQuery::new::<(&Position,)>(&storage).with::<Velocity>();
    assert_eq!(with_v.entity_count(), 1);
    let without_v = ArchetypeQuery::new::<(&Position,)>(&storage).without::<Velocity>();
    assert_eq!(without_v.entity_count(), 2);
    let counts = without_v.archetype_counts();
    assert_eq!(counts.len(), 1);
    assert_eq!(counts[0].1, 2);

    let mut batches = query.each_archetype_batch();
    let mut total = 0;
    while let Some(batch) = batches.next() {
        total += batch.len();
        assert!(!batch.is_empty());
        assert_eq!(batch.entities().count(), batch.len());
    }
    assert_eq!(total, 3);
    let mut iter = query.archetypes();
    assert_eq!(iter.size_hint(), (2, Some(2)));
    assert!(iter.next().is_some());
    assert!(iter.next().is_some());
    assert!(iter.next().is_none());

    let empty = ArchetypeStorage::new();
    let q = ArchetypeQuery::new::<(&Position,)>(&empty);
    assert_eq!(q.entity_count(), 0);
    assert!(q.is_empty());
}

#[test]
fn test_selection_state() {
    let mut state = SelectionState::new();
    assert!(!state.is_selected);

    state.select(5);
    assert!(state.is_selected);
    assert_eq!(state.selection_order, 5);

    state.deselect();
    assert!(!state.is_selected);
}

#[test]
fn test_post_process_stats_default() {
    let stats = PostProcessStats::default();

    assert_eq!(stats.total_effects, 0);
    assert_eq!(stats.active_effects, 0);
    assert_eq!(stats.bloom_count, 0);
    assert_eq!(stats.color_grading_count, 0);
    assert_eq!(stats.grayscale_count, 0);
    assert!(!stats.pipeline_enabled);
}

#[test]
fn test_post_process_stats_clone() {
    let stats = PostProcessStats {
        total_effects: 5,
        active_effects: 3,
        bloom_count: 2,
        color_grading_count: 1,
        grayscale_count: 0,
        pipeline_enabled: true,
    };

    let cloned = stats.clone();

    assert_eq!(cloned.total_effects, 5);
    assert_eq!(cloned.active_effects, 3);
}

#[test]
fn test_processor_creation() {
    let processor = BatchPhysicsProcessor::new();
    assert_eq!(processor.config().batch_size, 256);
}

#[test]
fn test_config_default() {
    let config = BatchPhysicsConfig::default();
    assert_eq!(config.batch_size, 256);
    assert!(!config.strict_alignment);
}

#[test]
fn test_stats_default() {
    let stats = BatchStats::default();
    assert_eq!(stats.entities_processed, 0);
    assert_eq!(stats.batches_processed, 0);
}

#[test]
fn test_batch_iter() {
    let data = [1, 2, 3, 4, 5, 6, 7, 8, 9];
    let mut iter = SimdBatchIterator::new(&data, 4);

    let mut batches: Vec<&[i32]> = Vec::new();
    while let Some(batch) = iter.next() {
        batches.push(batch);
    }
    assert_eq!(batches.len(), 3);
    assert_eq!(batches[0], &[1, 2, 3, 4]);
    assert_eq!(batches[1], &[5, 6, 7, 8]);
    assert_eq!(batches[2], &[9]);
}

#[test]
fn batch_iter_zero_size_counts_as_one() {
    let data = [1u8, 2];
    let mut iter = SimdBatchIterator::new(&data, 0);
    assert_eq!(iter.remaining(), 2);
    assert_eq!(iter.next(), Some(&[1u8][..]));
    assert_eq!(iter.remaining(), 1);
    assert!(!iter.is_exhausted());
    assert_eq!(iter.next(), Some(&[2u8][..]));
    assert!(iter.is_exhausted());
    assert_eq!(iter.next(), None);
}

#[test]
fn batch_processor_pass_bookkeeping() {
    let mut processor = BatchPhysicsProcessor::with_config(BatchPhysicsConfig { batch_size: 10, strict_alignment: false });
    assert_eq!(processor.pass_len(4), 4);
    assert_eq!(processor.pass_len(40), 10);
    processor.record_pass(10, true);
    processor.record_pass(3, false);
    assert_eq!(processor.stats().entities_processed, 13);
    assert_eq!(processor.stats().batches_processed, 2);
    processor.reset_stats();
    assert_eq!(processor.stats().entities_processed, 0);
}

#[test]
fn morton_spread_bits_values() {
    assert_eq!(MortonEncoder::spread_bits(0b1011), 0b1000101);
    assert_eq!(MortonEncoder::spread_bits(0xFFFF), 0x5555_5555);
    assert_eq!(MortonEncoder::expand_bits(1), 1);
    let _encoder = MortonEncoder::new();
}

#[test]
fn collision_detector_counts_overlaps() {
    let mut detector = CollisionSimdDetector::new();
    detector.record_results(&[true, false, true, true]);
    assert_eq!(detector.collision_count(), 3);
    detector.reset();
    assert_eq!(detector.collision_count(), 0);
}

#[test]
fn logic_event_codes() {
    assert_eq!(LogicEventType::EntitySelected.code(), 0);
    assert_eq!(LogicEventType::HoverChanged.code(), 6);
    assert_eq!(LogicEventType::_Max.code(), 255);
}

#[test]
fn test_schemas_are_valid_json() {
    let _: serde_json::Value = serde_json::from_str(COMPONENT_DEFINITION_SCHEMA).unwrap();
    let _: serde_json::Value = serde_json::from_str(BEHAVIOR_DEFINITION_SCHEMA).unwrap();
    let _: serde_json::Value = serde_json::from_str(ENTITY_DEFINITION_SCHEMA).unwrap();
    let _: serde_json::Value = serde_json::from_str(SCENE_SCHEMA).unwrap();
}

#[test]
fn schedule_runs_startup_once_then_by_descending_priority() {
    let mut schedule = SystemSchedule::new();
    let low = schedule.add(10, false);
    let high = schedule.add(100, false);
    let boot = schedule.add(0, true);
    let medium = schedule.add(50, false);
    let medium2 = schedule.add(50, false);
    assert_eq!((low, high, boot, medium, medium2), (0, 1, 2, 3, 4));
    assert_eq!(schedule.len(), 4);
    assert_eq!(schedule.startup_len(), 1);
    assert!(!schedule.has_run_startup());

    let first = schedule.run();
    assert_eq!(
        first,
        vec![
            RunStep { slot: 2, startup: true },
            RunStep { slot: 1, startup: false },
            RunStep { slot: 3, startup: false },
            RunStep { slot: 4, startup: false },
            RunStep { slot: 0, startup: false },
        ]
    );
    assert!(schedule.has_run_startup());
    assert_eq!(schedule.startup_len(), 0);

    let second = schedule.run();
    assert_eq!(
        second,
        vec![
            RunStep { slot: 1, startup: false },
            RunStep { slot: 3, startup: false },
            RunStep { slot: 4, startup: false },
            RunStep { slot: 0, startup: false },
        ]
    );
}

#[test]
fn schedule_clear_starts_over() {
    let mut schedule = SystemSchedule::default();
    assert!(schedule.is_empty());
    schedule.add(50, false);
    schedule.add(100, true);
    assert!(!schedule.is_empty());
    schedule.run();
    schedule.clear();
    assert!(schedule.is_empty());
    assert!(!schedule.has_run_startup());
    assert_eq!(schedule.add(5, true), 0);
    assert_eq!(schedule.run(), vec![RunStep { slot: 0, startup: true }]);
}

#[test]
fn morton_codes_interleave_and_separate_coordinates() {
    let encoder = MortonEncoder::new();
    assert_eq!(encoder.interleave_2d(0, 0), 0);
    assert_eq!(encoder.interleave_2d(1, 0), 1);
    assert_eq!(encoder.interleave_2d(0, 1), 2);
    assert_eq!(encoder.interleave_2d(3, 5), 0b100111);
    assert_eq!(encoder.interleave_2d(0xFFFF, 0xFFFF), u32::MAX);
    let mut codes = Vec::new();
    for x in 0..16u32 {
        for y in 0..16u32 {
            codes.push(encoder.interleave_2d(x * 4099, y * 257));
        }
    }
    let n = codes.len();
    codes.sort();
    codes.dedup();
    assert_eq!(codes.len(), n);
    assert_eq!(MortonEncoder::spread_bits(0b1011), 0b1000101);
}

#[test]
fn morton_expand_bits_uses_low_ten_bits() {
    assert_eq!(MortonEncoder::expand_bits(0), 0);
    assert_eq!(MortonEncoder::expand_bits(3), 0b1001);
    assert_eq!(MortonEncoder::expand_bits(0x3FF), 0x0924_9249);
    assert_eq!(MortonEncoder::expand_bits(1024), MortonEncoder::expand_bits(0));
    assert_eq!(MortonEncoder::expand_bits(1025), 1);
}
