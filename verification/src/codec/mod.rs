//! Decoders of the values that a snapshot is made of.

pub mod intset;
pub mod length;
pub mod list;
pub mod string;
pub mod ziplist;

pub use intset::{IntSet, IntSetCount, IntSetEncoding, IntSetValue, IntSetView};
pub use length::Length;
pub use list::{
    HashItem, HashItemView, LinkedListItem, RedisList, RedisListView, ZSetItem, ZSetItemView,
};
pub use string::{LZFString, LZFStringView, RedisString, RedisStringView, StrInt};
pub use ziplist::{
    ZLELen, ZLESpData, ZLESpDataView, ZipList, ZipListEntry, ZipListEntryView, ZipListLen,
    ZipListTail, ZipListView,
};
