//! Tag values of the snapshot format.

use vstd::prelude::*;

verus! {

/// Top two bits of a length header: six-bit length in the same byte.
pub const REDIS_RDB_6BITLEN: u8 = 0;

/// Top two bits of a length header: fourteen-bit length over two bytes.
pub const REDIS_RDB_14BITLEN: u8 = 1;

/// Top two bits of a length header: thirty-two-bit length in the next four bytes.
pub const REDIS_RDB_32BITLEN: u8 = 2;

/// Top two bits of a length header: not a length but an encoded value.
pub const REDIS_RDB_ENCVAL: u8 = 3;

/// Encoded value: eight-bit signed integer.
pub const REDIS_RDB_ENC_INT8: u8 = 0;

/// Encoded value: sixteen-bit signed integer.
pub const REDIS_RDB_ENC_INT16: u8 = 1;

/// Encoded value: thirty-two-bit signed integer.
pub const REDIS_RDB_ENC_INT32: u8 = 2;

/// Encoded value: LZF-compressed string.
pub const REDIS_RDB_ENC_LZF: u8 = 3;

/// Type of a record: a string.
pub const REDIS_RDB_TYPE_STRING: u8 = 0;

/// Type of a record: a list.
pub const REDIS_RDB_TYPE_LIST: u8 = 1;

/// Type of a record: a set.
pub const REDIS_RDB_TYPE_SET: u8 = 2;

/// Type of a record: a sorted set.
pub const REDIS_RDB_TYPE_ZSET: u8 = 3;

/// Type of a record: a hash.
pub const REDIS_RDB_TYPE_HASH: u8 = 4;

/// Type of a record: a hash in a zipmap, which is not supported.
pub const REDIS_RDB_TYPE_HASH_ZIPMAP: u8 = 9;

/// Type of a record: a list in a ziplist.
pub const REDIS_RDB_TYPE_LIST_ZIPLIST: u8 = 10;

/// Type of a record: a set in an intset.
pub const REDIS_RDB_TYPE_SET_INTSET: u8 = 11;

/// Type of a record: a sorted set in a ziplist.
pub const REDIS_RDB_TYPE_ZSET_ZIPLIST: u8 = 12;

/// Type of a record: a hash in a ziplist.
pub const REDIS_RDB_TYPE_HASH_ZIPLIST: u8 = 13;

/// Opcode before an expiry in milliseconds.
pub const REDIS_RDB_OPCODE_EXPIRETIME_MS: u8 = 252;

/// Opcode before an expiry in seconds.
pub const REDIS_RDB_OPCODE_EXPIRETIME: u8 = 253;

/// Opcode before the number of a database.
pub const REDIS_RDB_OPCODE_SELECTDB: u8 = 0xFE;

/// Opcode after the last record, and the terminator of a ziplist.
pub const REDIS_RDB_OPCODE_EOF: u8 = 0xFF;

/// Largest length of a previous entry that a ziplist entry holds in one byte.
pub const REDIS_RDB_FLAG_ZIPLIST_ENTRY_LEN_MAX: u8 = 253;

/// Byte before a length of a previous entry that takes four bytes.
pub const REDIS_RDB_FLAG_ZIPLIST_ENTRY_LEN_LARGE: u8 = 0xFE;

/// Top two bits of a ziplist entry flag: a string with a six-bit length.
pub const REDIS_RDB_FLAG_ZIPLIST_ENTRY_SMALL_STR: u8 = 0;

/// Top two bits of a ziplist entry flag: a string with a fourteen-bit length.
pub const REDIS_RDB_FLAG_ZIPLIST_ENTRY_NORMAL_STR: u8 = 1;

/// Top two bits of a ziplist entry flag: a string with a thirty-two-bit length.
pub const REDIS_RDB_FLAG_ZIPLIST_ENTRY_LARGE_STR: u8 = 2;

/// Ziplist entry flag: an integer of two bytes.
pub const REDIS_RDB_FLAG_ZIPLIST_ENTRY_NORMAL_INT: u8 = 0xC0;

/// Ziplist entry flag: an integer of four bytes.
pub const REDIS_RDB_FLAG_ZIPLIST_ENTRY_LARGE_INT: u8 = 0xD0;

/// Ziplist entry flag: an integer of eight bytes.
pub const REDIS_RDB_FLAG_ZIPLIST_ENTRY_EXLARGE_INT: u8 = 0xE0;

/// Ziplist entry flag: an integer of three bytes.
pub const REDIS_RDB_FLAG_ZIPLIST_ENTRY_LARGE_TRIM_INT: u8 = 0xF0;

/// Ziplist entry flag: an integer of one byte.
pub const REDIS_RDB_FLAG_ZIPLIST_ENTRY_SMALL_INT: u8 = 0xFE;

/// Number of bytes of the magic text `REDIS`.
pub const REDIS_MAGIC_LEN: usize = 5;

/// Number of the version digits behind the magic text.
pub const REDIS_VERSION_LEN: usize = 4;

} // verus!
