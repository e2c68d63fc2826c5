//! Moving cold stripes to an object store and back.

pub mod codec;
pub mod eviction_laws;
pub mod evictor;
pub mod evictor_laws;
pub mod evictor_model;
pub mod object_laws;
pub mod pressure_laws;
pub mod punch;
pub mod spill_flags;
pub mod sweep_laws;
