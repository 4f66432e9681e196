//! Core of a local artifact-cache daemon: a content-addressed blob store,
//! a persistent entries index, the request protocol, and the shutdown
//! coordinator, with machine-checked contracts.

pub mod builder;
pub mod codec;
pub mod hash;
pub mod index;
pub mod protocol;
pub mod server;
pub mod shutdown;
pub mod store;
