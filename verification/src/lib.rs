//! A record-management backend for work items ("tasks") and registered
//! participants ("members"), kept in one durable memory region that is
//! partitioned into independent segments: two identifier counters, and two
//! ordered maps from identifier to serialized record.

pub mod stable;
pub mod counter;
pub mod errors;
pub mod model;
pub mod text;
pub mod codec;
pub mod stores;
pub mod lifecycle;

pub use errors::Error;
