//! A streaming terrain cache: a bounded window of procedurally generated
//! terrain chunks, built lazily on a background thread pool, stitched
//! seamlessly at chunk borders, and re-centered in place as the camera moves.

pub mod heightfield;
pub mod input;
pub mod runtime;
pub mod settings;
pub mod signal;
pub mod sky;
pub mod sounds;
pub mod texts;
pub mod terrain_generation;
pub mod world;
