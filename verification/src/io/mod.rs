//! Links over byte streams.

pub mod codec;
