//! A record: its key and its value in one of nine encodings.

use crate::codec::length::Length;
use crate::codec::list::{
    always_applies, applies, items_apply, HashItem, HashItemView, LinkedListItem, RedisList,
    RedisListView, ZSetItem, ZSetItemView,
};
use crate::codec::string::{RedisString, RedisStringView};
use crate::codec::ziplist::ZipListEntry;
use crate::com::{Error, FromBuf, Settled, Shift};
use crate::consts::{
    REDIS_RDB_TYPE_HASH, REDIS_RDB_TYPE_HASH_ZIPLIST, REDIS_RDB_TYPE_HASH_ZIPMAP,
    REDIS_RDB_TYPE_LIST, REDIS_RDB_TYPE_LIST_ZIPLIST, REDIS_RDB_TYPE_SET, REDIS_RDB_TYPE_SET_INTSET,
    REDIS_RDB_TYPE_STRING, REDIS_RDB_TYPE_ZSET, REDIS_RDB_TYPE_ZSET_ZIPLIST,
};
use vstd::prelude::*;

verus! {

/// The key of a record.
pub type Key = RedisString;

/// A list: a container of strings.
pub type RedisLinkedList = RedisList<LinkedListItem>;

/// A set: a container of strings.
pub type RedisSet = RedisList<LinkedListItem>;

/// A sorted set: a container of members with their scores.
pub type RedisZSet = RedisList<ZSetItem>;

/// A hash: a container of fields with their values.
pub type RedisHash = RedisList<HashItem>;

/// A record. The last four variants carry a ziplist or an intset as the
/// bytes of a string, not yet taken apart.
#[derive(Debug, Clone, PartialEq, Eq)]
pub enum RedisData {
    String(Key, RedisString),
    List(Key, RedisLinkedList),
    Sets(Key, RedisSet),
    ZSet(Key, RedisZSet),
    Hash(Key, RedisHash),
    ListZipList(Key, RedisString),
    ZSetZipList(Key, RedisString),
    HashZipList(Key, RedisString),
    SetIntSet(Key, RedisString),
}

/// What a [`RedisData`] holds.
pub enum RedisDataView {
    String(RedisStringView, RedisStringView),
    List(RedisStringView, RedisListView<RedisStringView>),
    Sets(RedisStringView, RedisListView<RedisStringView>),
    ZSet(RedisStringView, RedisListView<ZSetItemView>),
    Hash(RedisStringView, RedisListView<HashItemView>),
    ListZipList(RedisStringView, RedisStringView),
    ZSetZipList(RedisStringView, RedisStringView),
    HashZipList(RedisStringView, RedisStringView),
    SetIntSet(RedisStringView, RedisStringView),
}

impl View for RedisData {
    type V = RedisDataView;

    open spec fn view(&self) -> RedisDataView {
        match self {
            RedisData::String(key, v) => RedisDataView::String(key@, v@),
            RedisData::List(key, v) => RedisDataView::List(key@, v@),
            RedisData::Sets(key, v) => RedisDataView::Sets(key@, v@),
            RedisData::ZSet(key, v) => RedisDataView::ZSet(key@, v@),
            RedisData::Hash(key, v) => RedisDataView::Hash(key@, v@),
            RedisData::ListZipList(key, v) => RedisDataView::ListZipList(key@, v@),
            RedisData::ZSetZipList(key, v) => RedisDataView::ZSetZipList(key@, v@),
            RedisData::HashZipList(key, v) => RedisDataView::HashZipList(key@, v@),
            RedisData::SetIntSet(key, v) => RedisDataView::SetIntSet(key@, v@),
        }
    }
}

impl RedisDataView {
    /// The key of the record.
    pub open spec fn key(self) -> RedisStringView {
        match self {
            RedisDataView::String(key, _) => key,
            RedisDataView::List(key, _) => key,
            RedisDataView::Sets(key, _) => key,
            RedisDataView::ZSet(key, _) => key,
            RedisDataView::Hash(key, _) => key,
            RedisDataView::ListZipList(key, _) => key,
            RedisDataView::ZSetZipList(key, _) => key,
            RedisDataView::HashZipList(key, _) => key,
            RedisDataView::SetIntSet(key, _) => key,
        }
    }

    /// The bytes that the value takes behind the key.
    pub open spec fn value_len(self) -> nat {
        match self {
            RedisDataView::String(_, v) => RedisString::wire_len(v),
            RedisDataView::List(_, v) => RedisList::<LinkedListItem>::wire_len(v),
            RedisDataView::Sets(_, v) => RedisList::<LinkedListItem>::wire_len(v),
            RedisDataView::ZSet(_, v) => RedisList::<ZSetItem>::wire_len(v),
            RedisDataView::Hash(_, v) => RedisList::<HashItem>::wire_len(v),
            RedisDataView::ListZipList(_, v) => RedisString::wire_len(v),
            RedisDataView::ZSetZipList(_, v) => RedisString::wire_len(v),
            RedisDataView::HashZipList(_, v) => RedisString::wire_len(v),
            RedisDataView::SetIntSet(_, v) => RedisString::wire_len(v),
        }
    }

    /// The value of a record of type `kind` with key `key`, decoded from the
    /// front of `src`. Type 9, the zipmap, is not supported, and the types
    /// that the format does not know are malformed.
    #[verifier::opaque]
    pub open spec fn decode_value(kind: u8, key: RedisStringView, src: Seq<u8>) -> Result<
        RedisDataView,
        Error,
    > {
        if kind == 0 {
            match RedisString::decode(src) {
                Err(e) => Err(e),
                Ok(v) => Ok(RedisDataView::String(key, v)),
            }
        } else if kind == 1 {
            match RedisList::<LinkedListItem>::decode(src) {
                Err(e) => Err(e),
                Ok(v) => Ok(RedisDataView::List(key, v)),
            }
        } else if kind == 2 {
            match RedisList::<LinkedListItem>::decode(src) {
                Err(e) => Err(e),
                Ok(v) => Ok(RedisDataView::Sets(key, v)),
            }
        } else if kind == 3 {
            match RedisList::<ZSetItem>::decode(src) {
                Err(e) => Err(e),
                Ok(v) => Ok(RedisDataView::ZSet(key, v)),
            }
        } else if kind == 4 {
            match RedisList::<HashItem>::decode(src) {
                Err(e) => Err(e),
                Ok(v) => Ok(RedisDataView::Hash(key, v)),
            }
        } else if kind == 9 {
            Err(Error::Faild("zipmap is not supported"))
        } else if kind == 10 {
            match RedisString::decode(src) {
                Err(e) => Err(e),
                Ok(v) => Ok(RedisDataView::ListZipList(key, v)),
            }
        } else if kind == 11 {
            match RedisString::decode(src) {
                Err(e) => Err(e),
                Ok(v) => Ok(RedisDataView::SetIntSet(key, v)),
            }
        } else if kind == 12 {
            match RedisString::decode(src) {
                Err(e) => Err(e),
                Ok(v) => Ok(RedisDataView::ZSetZipList(key, v)),
            }
        } else if kind == 13 {
            match RedisString::decode(src) {
                Err(e) => Err(e),
                Ok(v) => Ok(RedisDataView::HashZipList(key, v)),
            }
        } else {
            Err(Error::Faild("record type"))
        }
    }

    /// A decoded value belongs to the key it was decoded for and lies within
    /// the input.
    pub proof fn lemma_decode_value_fits(kind: u8, key: RedisStringView, src: Seq<u8>)
        ensures
            Self::decode_value(kind, key, src) matches Ok(v) ==> v.key() == key && 1
                <= v.value_len() <= src.len(),
    {
        reveal(RedisDataView::decode_value);
        RedisString::lemma_decode_fits(src);
        RedisList::<LinkedListItem>::lemma_decode_fits(src);
        RedisList::<ZSetItem>::lemma_decode_fits(src);
        RedisList::<HashItem>::lemma_decode_fits(src);
    }

    /// Bytes behind a value do not change what is decoded.
    pub proof fn lemma_decode_value_prefix(kind: u8, key: RedisStringView, src: Seq<u8>, n: int)
        requires
            Self::decode_value(kind, key, src) matches Ok(v) && v.value_len() <= n <= src.len(),
        ensures
            Self::decode_value(kind, key, src.take(n)) == Self::decode_value(kind, key, src),
    {
        reveal(RedisDataView::decode_value);
        if kind == 1 || kind == 2 {
            RedisList::<LinkedListItem>::lemma_decode_prefix(src, n);
        } else if kind == 3 {
            RedisList::<ZSetItem>::lemma_decode_prefix(src, n);
        } else if kind == 4 {
            RedisList::<HashItem>::lemma_decode_prefix(src, n);
        } else {
            RedisString::lemma_decode_prefix(src, n);
        }
    }

    /// Bytes added behind a decoded value do not change what is decoded.
    pub proof fn lemma_decode_value_extend(
        kind: u8,
        key: RedisStringView,
        src: Seq<u8>,
        more: Seq<u8>,
    )
        requires
            Self::decode_value(kind, key, src) is Ok,
        ensures
            Self::decode_value(kind, key, src + more) == Self::decode_value(kind, key, src),
    {
        reveal(RedisDataView::decode_value);
        if kind == 1 || kind == 2 {
            RedisList::<LinkedListItem>::lemma_decode_extend(src, more);
        } else if kind == 3 {
            RedisList::<ZSetItem>::lemma_decode_extend(src, more);
        } else if kind == 4 {
            RedisList::<HashItem>::lemma_decode_extend(src, more);
        } else {
            RedisString::lemma_decode_extend(src, more);
        }
    }

    /// A value that is one byte short asks for more bytes.
    pub proof fn lemma_decode_value_short(kind: u8, key: RedisStringView, src: Seq<u8>)
        requires
            Self::decode_value(kind, key, src) is Ok,
        ensures
            Self::decode_value(
                kind,
                key,
                src.take(Self::decode_value(kind, key, src)->Ok_0.value_len() - 1),
            ) == Err::<RedisDataView, Error>(Error::More),
    {
        reveal(RedisDataView::decode_value);
        if kind == 1 || kind == 2 {
            RedisList::<LinkedListItem>::lemma_decode_short(src);
        } else if kind == 3 {
            RedisList::<ZSetItem>::lemma_decode_short(src);
        } else if kind == 4 {
            RedisList::<HashItem>::lemma_decode_short(src);
        } else {
            RedisString::lemma_decode_short(src);
        }
    }
}

impl RedisData {
    /// A copy of the key.
    pub fn copy_key(&self) -> (r: RedisString)
        ensures
            r@ == self@.key(),
    {
        match self {
            RedisData::String(key, _) => key.copy(),
            RedisData::List(key, _) => key.copy(),
            RedisData::Sets(key, _) => key.copy(),
            RedisData::ZSet(key, _) => key.copy(),
            RedisData::Hash(key, _) => key.copy(),
            RedisData::ListZipList(key, _) => key.copy(),
            RedisData::ZSetZipList(key, _) => key.copy(),
            RedisData::HashZipList(key, _) => key.copy(),
            RedisData::SetIntSet(key, _) => key.copy(),
        }
    }
}

impl Shift for RedisData {
    /// The type byte, the key and the value.
    open spec fn wire_len(v: RedisDataView) -> nat {
        1 + RedisString::wire_len(v.key()) + v.value_len()
    }

    fn shift(&self) -> (n: usize) {
        let suffix_len = match self {
            RedisData::String(key, v) => key.shift() + v.shift(),
            RedisData::List(key, v) => key.shift() + v.shift(),
            RedisData::Sets(key, v) => key.shift() + v.shift(),
            RedisData::ZSet(key, v) => key.shift() + v.shift(),
            RedisData::Hash(key, v) => key.shift() + v.shift(),
            RedisData::ListZipList(key, v) => key.shift() + v.shift(),
            RedisData::SetIntSet(key, v) => key.shift() + v.shift(),
            RedisData::HashZipList(key, v) => key.shift() + v.shift(),
            RedisData::ZSetZipList(key, v) => key.shift() + v.shift(),
        };
        1 + suffix_len
    }
}

impl FromBuf for RedisData {
    /// The type byte, the key, and the value in the encoding that the type
    /// byte names.
    open spec fn decode(src: Seq<u8>) -> Result<RedisDataView, Error> {
        if src.len() < 1 {
            Err(Error::More)
        } else {
            match RedisString::decode(src.skip(1)) {
                Err(e) => Err(e),
                Ok(key) => RedisDataView::decode_value(
                    src[0],
                    key,
                    src.skip(1 + RedisString::wire_len(key) as int),
                ),
            }
        }
    }

    proof fn lemma_decode_fits(src: Seq<u8>) {
        if src.len() >= 1 {
            RedisString::lemma_decode_fits(src.skip(1));
            if let Ok(key) = RedisString::decode(src.skip(1)) {
                RedisDataView::lemma_decode_value_fits(
                    src[0],
                    key,
                    src.skip(1 + RedisString::wire_len(key) as int),
                );
            }
        }
    }

    proof fn lemma_decode_prefix(src: Seq<u8>, n: int) {
        let key = RedisString::decode(src.skip(1))->Ok_0;
        let at = 1 + RedisString::wire_len(key) as int;
        RedisDataView::lemma_decode_value_fits(src[0], key, src.skip(at));
        RedisString::lemma_decode_prefix(src.skip(1), n - 1);
        assert(src.take(n).skip(1) =~= src.skip(1).take(n - 1));
        RedisDataView::lemma_decode_value_prefix(src[0], key, src.skip(at), n - at);
        assert(src.take(n).skip(at) =~= src.skip(at).take(n - at));
    }

    proof fn lemma_decode_short(src: Seq<u8>) {
        let key = RedisString::decode(src.skip(1))->Ok_0;
        let at = 1 + RedisString::wire_len(key) as int;
        let n = Self::wire_len(Self::decode(src)->Ok_0) - 1;
        let cut = src.take(n);
        RedisString::lemma_decode_fits(src.skip(1));
        RedisDataView::lemma_decode_value_fits(src[0], key, src.skip(at));
        assert(cut.skip(1) =~= src.skip(1).take(n - 1));
        RedisString::lemma_decode_prefix(src.skip(1), n - 1);
        assert(RedisString::decode(cut.skip(1)) == Ok::<RedisStringView, Error>(key));
        RedisDataView::lemma_decode_value_short(src[0], key, src.skip(at));
        assert(cut.skip(at) =~= src.skip(at).take(n - at));
        assert(Self::decode(cut) == RedisDataView::decode_value(src[0], key, cut.skip(at)));
    }

    fn from_buf(src: &[u8]) -> (r: Result<RedisData, Error>) {
        if src.len() < 1 {
            return Err(Error::More);
        }
        let ltype = src[0];
        let key = match RedisString::from_buf(&src[1..src.len()]) {
            Ok(key) => key,
            Err(e) => return Err(e),
        };
        proof {
            reveal(RedisDataView::decode_value);
            RedisString::lemma_decode_fits(src@.skip(1));
        }
        let src = &src[1 + key.shift()..src.len()];
        if ltype == REDIS_RDB_TYPE_STRING {
            match RedisString::from_buf(src) {
                Ok(rs) => Ok(RedisData::String(key, rs)),
                Err(e) => Err(e),
            }
        } else if ltype == REDIS_RDB_TYPE_LIST {
            match RedisList::from_buf(src) {
                Ok(rls) => Ok(RedisData::List(key, rls)),
                Err(e) => Err(e),
            }
        } else if ltype == REDIS_RDB_TYPE_SET {
            match RedisList::from_buf(src) {
                Ok(rls) => Ok(RedisData::Sets(key, rls)),
                Err(e) => Err(e),
            }
        } else if ltype == REDIS_RDB_TYPE_ZSET {
            match RedisList::from_buf(src) {
                Ok(rzls) => Ok(RedisData::ZSet(key, rzls)),
                Err(e) => Err(e),
            }
        } else if ltype == REDIS_RDB_TYPE_HASH {
            match RedisList::from_buf(src) {
                Ok(rhls) => Ok(RedisData::Hash(key, rhls)),
                Err(e) => Err(e),
            }
        } else if ltype == REDIS_RDB_TYPE_HASH_ZIPMAP {
            Err(Error::Faild("zipmap is not supported"))
        } else if ltype == REDIS_RDB_TYPE_LIST_ZIPLIST {
            match RedisString::from_buf(src) {
                Ok(rs) => Ok(RedisData::ListZipList(key, rs)),
                Err(e) => Err(e),
            }
        } else if ltype == REDIS_RDB_TYPE_SET_INTSET {
            match RedisString::from_buf(src) {
                Ok(rs) => Ok(RedisData::SetIntSet(key, rs)),
                Err(e) => Err(e),
            }
        } else if ltype == REDIS_RDB_TYPE_ZSET_ZIPLIST {
            match RedisString::from_buf(src) {
                Ok(rs) => Ok(RedisData::ZSetZipList(key, rs)),
                Err(e) => Err(e),
            }
        } else if ltype == REDIS_RDB_TYPE_HASH_ZIPLIST {
            match RedisString::from_buf(src) {
                Ok(rs) => Ok(RedisData::HashZipList(key, rs)),
                Err(e) => Err(e),
            }
        } else {
            Err(Error::Faild("record type"))
        }
    }
}

impl Settled for RedisData {
    proof fn lemma_decode_extend(src: Seq<u8>, more: Seq<u8>) {
        let key = RedisString::decode(src.skip(1))->Ok_0;
        let at = 1 + RedisString::wire_len(key) as int;
        let longer = src + more;
        RedisString::lemma_decode_fits(src.skip(1));
        RedisString::lemma_decode_extend(src.skip(1), more);
        assert(longer.skip(1) =~= src.skip(1) + more);
        RedisDataView::lemma_decode_value_extend(src[0], key, src.skip(at), more);
        assert(longer.skip(at) =~= src.skip(at) + more);
    }
}

/// The decoders of the three kinds of item always apply.
pub proof fn item_decoders_apply()
    ensures
        always_applies::<LinkedListItem>(),
        always_applies::<ZSetItem>(),
        always_applies::<HashItem>(),
        always_applies::<ZipListEntry>(),
{
    assert forall|s: Seq<u8>| applies(#[trigger] ZSetItem::decode(s)) by {
        if let Ok(first) = RedisString::decode(s) {
            assert(applies(RedisString::decode(s.skip(RedisString::wire_len(first) as int))));
        }
    }
    assert forall|s: Seq<u8>| applies(#[trigger] HashItem::decode(s)) by {
        if let Ok(first) = RedisString::decode(s) {
            assert(applies(RedisString::decode(s.skip(RedisString::wire_len(first) as int))));
        }
    }
}

/// A record is decoded or the input is short or malformed: the signal that a
/// kind does not apply stays inside the decoder.
pub proof fn record_decoder_applies(s: Seq<u8>)
    ensures
        applies(RedisData::decode(s)),
{
    reveal(RedisDataView::decode_value);
    item_decoders_apply();
    if s.len() >= 1 {
        if let Ok(key) = RedisString::decode(s.skip(1)) {
            let rest = s.skip(1 + RedisString::wire_len(key) as int);
            if let Ok(length) = Length::decode(rest) {
                let body = rest.skip(Length::wire_len(length) as int);
                items_apply::<LinkedListItem>(body, length.value());
                items_apply::<ZSetItem>(body, length.value());
                items_apply::<HashItem>(body, length.value());
            }
        }
    }
}


} // verus!
