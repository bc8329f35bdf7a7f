//! A single-producer single-consumer audio ring with a monotonic timeline and gap tracking.

pub mod bitmap;
pub mod ring_storage;
pub mod ring_buffer;
