//! A minimal session-issuing and authentication service core.
//!
//! The library holds the verified logic of the service: the session
//! identifier codec (URL-safe base64 over 16 random bytes), the session
//! store, and the three operations a client may perform (create a session,
//! authenticate it exactly once, read its state).  The HTTP plumbing around
//! it lives outside the library and only hands plain values in and out.

pub mod codec;
pub mod errors;
pub mod rng;
pub mod service;
pub mod store;
