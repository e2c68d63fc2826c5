//! Stores of named objects.

pub mod fs_store;
pub mod s3_store;
pub mod test_store;
