pub mod api;
pub mod audio;
pub mod command;
pub mod ecs;
pub mod events;
pub mod mapping;
pub mod signals;
