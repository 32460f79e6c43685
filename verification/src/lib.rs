//! A fixed-capacity key/value cache with random replacement: once the cache
//! is full, every insertion of a new key discards one resident entry chosen
//! uniformly at random.

pub mod laws;
pub mod rng;
pub mod rr;
