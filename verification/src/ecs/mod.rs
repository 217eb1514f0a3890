pub mod animation_system;
pub mod archetype;
pub mod archetype_query;
pub mod behavior_block;
pub mod component;
pub mod components;
pub mod entity_builder;
pub mod hybrid;
pub mod physics_components;
pub mod physics_system;
pub mod pool;
pub mod post_process_system;
pub mod query;
pub mod registry;
pub mod shape_render_system;
pub mod simd;
pub mod simd_integration;
pub mod sparse_set;
pub mod system;
pub mod texture_atlas_system;
pub mod world;
