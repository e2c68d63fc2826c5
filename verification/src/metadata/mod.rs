//! Per-stripe metadata: the header bytes on disk and the state kept in memory.

pub mod metadata_flags;
pub mod stripe_flags;
pub mod transition_laws;
pub mod types;
pub mod count_laws;
pub mod layout_laws;
pub mod load;
pub mod save;
pub mod shared_state;
pub mod state_laws;
