//! The records of a snapshot and the commands that they stand for.

pub mod command;
pub mod data;
pub mod expire;

pub use data::{Key, RedisData, RedisDataView, RedisHash, RedisLinkedList, RedisSet, RedisZSet};
pub use expire::ExpireTime;
