//! Authenticated, encrypted session transport: a key/value session is sealed
//! with ChaCha20-Poly1305 into an opaque blob and opened again.

pub mod codec;
pub mod error;
mod primitives;
pub mod session;
