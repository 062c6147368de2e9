//! A fixed-size worker pool, modelled as a verified state machine, and a
//! narrow interface to hash and signature primitives.
pub mod crypto;
pub mod pool;
pub mod protocol;
