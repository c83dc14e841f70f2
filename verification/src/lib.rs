//! Streamed decoder for Redis snapshot files and its projection onto commands.
//!
//! A [`DefaultRdbParser`] is fed the bytes of a snapshot as they arrive. It
//! walks the envelope of the snapshot, decodes the records and hands out the
//! commands that rebuild them.

pub mod codec;
pub mod com;
pub mod consts;
pub mod decimal;
pub mod entry;
pub mod fmt;
pub mod laws;
pub mod parser;
pub mod types;

pub use com::{Error, FromBuf, Settled, Shift};
pub use entry::RdbEntry;
pub use fmt::{Group, RedisCmd, RedisFmt, RedisFormat};
pub use parser::{DefaultRdbParser, State};
