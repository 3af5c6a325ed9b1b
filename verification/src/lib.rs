//! A dependency-injection container: singleton services, shared behind
//! lock-guarded handles, are built on demand and found again by the type key
//! they were registered under.

pub mod di;
pub mod event;
pub mod typemap;
