//! A verified model of a bridge between host ownership and a foreign,
//! reference-counted object runtime: counted handles, scoped autorelease
//! pools, message results, and the crossing of foreign throws.

pub mod accounting;
pub mod context;
pub mod description;
pub mod dispatch;
pub mod exception;
pub mod handle;
pub mod laws;
pub mod path;
pub mod pool;
pub mod range;
pub mod runtime;
