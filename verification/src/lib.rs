//! An in-memory, authenticated key-value store organized into named tables,
//! with a length-prefixed binary wire protocol, optional per-frame
//! compression, a concurrent two-level table/key map, and snapshot
//! persistence of the whole database to a single byte image.

pub mod bytes;
pub mod compress;
pub mod config;
pub mod conn;
pub mod frame;
pub mod msgpack;
pub mod protocol;
pub mod session;
pub mod snapshot;
pub mod store;
pub mod text;
pub mod value;
pub mod wire;
