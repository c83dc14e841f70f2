//! The ziplist: a packed list that travels as the bytes of a string.

use crate::codec::length::Length;
use crate::codec::list::{
    decode_items, items_from_buf, items_len, items_shift, lemma_decode_items_extend,
    lemma_decode_items_fits, lemma_decode_items_prefix,
};
use crate::codec::string::or_else;
use crate::com::{
    be_u16, be_u32, buf_to_u16, buf_to_u32, byte_to_i8, le_u16, le_u24, le_u32, le_u64,
    lemma_byte_split, read_i16_le, read_i24_le, read_i32_le, read_i64_le, read_u16_be, read_u32_be,
    twos, views, Error, FromBuf, Settled, Shift,
};
use crate::consts::{
    REDIS_RDB_FLAG_ZIPLIST_ENTRY_EXLARGE_INT, REDIS_RDB_FLAG_ZIPLIST_ENTRY_LARGE_INT,
    REDIS_RDB_FLAG_ZIPLIST_ENTRY_LARGE_STR, REDIS_RDB_FLAG_ZIPLIST_ENTRY_LARGE_TRIM_INT,
    REDIS_RDB_FLAG_ZIPLIST_ENTRY_LEN_LARGE, REDIS_RDB_FLAG_ZIPLIST_ENTRY_LEN_MAX,
    REDIS_RDB_FLAG_ZIPLIST_ENTRY_NORMAL_INT, REDIS_RDB_FLAG_ZIPLIST_ENTRY_NORMAL_STR,
    REDIS_RDB_FLAG_ZIPLIST_ENTRY_SMALL_INT, REDIS_RDB_FLAG_ZIPLIST_ENTRY_SMALL_STR,
    REDIS_RDB_OPCODE_EOF,
};
use crate::decimal::{decimal, decimal_bytes};
use vstd::prelude::*;
use vstd::slice::slice_to_vec;

verus! {

/// Offset of the last entry, as the header of a ziplist gives it.
#[derive(Copy, Clone, Debug, PartialEq, Eq)]
pub struct ZipListTail(pub u32);

impl View for ZipListTail {
    type V = ZipListTail;

    open spec fn view(&self) -> ZipListTail {
        *self
    }
}

impl Shift for ZipListTail {
    open spec fn wire_len(v: ZipListTail) -> nat {
        4
    }

    fn shift(&self) -> (n: usize) {
        4
    }
}

impl FromBuf for ZipListTail {
    /// Four bytes, little-endian.
    open spec fn decode(src: Seq<u8>) -> Result<ZipListTail, Error> {
        if src.len() < 4 {
            Err(Error::More)
        } else {
            Ok(ZipListTail(le_u32(src) as u32))
        }
    }

    proof fn lemma_decode_fits(src: Seq<u8>) {
    }

    proof fn lemma_decode_prefix(src: Seq<u8>, n: int) {
    }

    proof fn lemma_decode_short(src: Seq<u8>) {
    }

    fn from_buf(src: &[u8]) -> (r: Result<ZipListTail, Error>) {
        if src.len() < 4 {
            return Err(Error::More);
        }
        Ok(ZipListTail(buf_to_u32(src)))
    }
}

/// Number of entries, as the header of a ziplist gives it.
#[derive(Copy, Clone, Debug, PartialEq, Eq)]
pub struct ZipListLen(pub u16);

impl View for ZipListLen {
    type V = ZipListLen;

    open spec fn view(&self) -> ZipListLen {
        *self
    }
}

impl Shift for ZipListLen {
    open spec fn wire_len(v: ZipListLen) -> nat {
        2
    }

    fn shift(&self) -> (n: usize) {
        2
    }
}

impl FromBuf for ZipListLen {
    /// Two bytes, little-endian.
    open spec fn decode(src: Seq<u8>) -> Result<ZipListLen, Error> {
        if src.len() < 2 {
            Err(Error::More)
        } else {
            Ok(ZipListLen(le_u16(src) as u16))
        }
    }

    proof fn lemma_decode_fits(src: Seq<u8>) {
    }

    proof fn lemma_decode_prefix(src: Seq<u8>, n: int) {
    }

    proof fn lemma_decode_short(src: Seq<u8>) {
    }

    fn from_buf(src: &[u8]) -> (r: Result<ZipListLen, Error>) {
        if src.len() < 2 {
            return Err(Error::More);
        }
        Ok(ZipListLen(buf_to_u16(src)))
    }
}

/// Length of the previous entry, at the head of a ziplist entry: in one byte,
/// or in four bytes behind the byte `0xFE`.
#[derive(Copy, Clone, Debug, PartialEq, Eq)]
pub enum ZLELen {
    Small(u8),
    Large(u32),
}

impl View for ZLELen {
    type V = ZLELen;

    open spec fn view(&self) -> ZLELen {
        *self
    }
}

impl Shift for ZLELen {
    open spec fn wire_len(v: ZLELen) -> nat {
        match v {
            ZLELen::Small(_) => 1,
            ZLELen::Large(_) => 5,
        }
    }

    fn shift(&self) -> (n: usize) {
        match self {
            ZLELen::Small(_) => 1,
            ZLELen::Large(_) => 5,
        }
    }
}

impl FromBuf for ZLELen {
    /// A byte below `0xFE` is the length itself. `0xFE` announces the length
    /// in the next four bytes, little-endian. `0xFF` stands for no length.
    open spec fn decode(src: Seq<u8>) -> Result<ZLELen, Error> {
        if src.len() < 1 {
            Err(Error::More)
        } else if src[0] < 0xFE {
            Ok(ZLELen::Small(src[0]))
        } else if src[0] == 0xFE {
            if src.len() < 5 {
                Err(Error::More)
            } else {
                Ok(ZLELen::Large(le_u32(src.skip(1)) as u32))
            }
        } else {
            Err(Error::Faild("ziplist entry length"))
        }
    }

    proof fn lemma_decode_fits(src: Seq<u8>) {
    }

    proof fn lemma_decode_prefix(src: Seq<u8>, n: int) {
        assert(src.take(n).skip(1) =~= src.skip(1).take(n - 1));
    }

    proof fn lemma_decode_short(src: Seq<u8>) {
    }

    fn from_buf(src: &[u8]) -> (r: Result<ZLELen, Error>) {
        if src.len() < 1 {
            return Err(Error::More);
        }
        let flag = src[0];
        if flag <= REDIS_RDB_FLAG_ZIPLIST_ENTRY_LEN_MAX {
            return Ok(ZLELen::Small(flag));
        }
        if flag != REDIS_RDB_FLAG_ZIPLIST_ENTRY_LEN_LARGE {
            return Err(Error::Faild("ziplist entry length"));
        }
        if src.len() < 1 + 4 {
            return Err(Error::More);
        }
        assert(src@.subrange(1, 5) =~= src@.skip(1).take(4));
        Ok(ZLELen::Large(buf_to_u32(&src[1..5])))
    }
}

/// The payload of a ziplist entry: a string of one of three size classes or
/// an integer of one of six widths.
#[derive(Clone, Debug, PartialEq, Eq)]
pub enum ZLESpData {
    SmallStr(Vec<u8>),
    NormalStr(Vec<u8>),
    LargeStr(Vec<u8>),
    ExSmallInt(u8),
    SmallInt(i8),
    NormalInt(i16),
    LargeTrimInt(i32),
    LargeInt(i32),
    ExLargeInt(i64),
}

/// What a [`ZLESpData`] holds.
pub enum ZLESpDataView {
    SmallStr(Seq<u8>),
    NormalStr(Seq<u8>),
    LargeStr(Seq<u8>),
    ExSmallInt(u8),
    SmallInt(i8),
    NormalInt(i16),
    LargeTrimInt(i32),
    LargeInt(i32),
    ExLargeInt(i64),
}

impl View for ZLESpData {
    type V = ZLESpDataView;

    open spec fn view(&self) -> ZLESpDataView {
        match self {
            ZLESpData::SmallStr(v) => ZLESpDataView::SmallStr(v@),
            ZLESpData::NormalStr(v) => ZLESpDataView::NormalStr(v@),
            ZLESpData::LargeStr(v) => ZLESpDataView::LargeStr(v@),
            ZLESpData::ExSmallInt(v) => ZLESpDataView::ExSmallInt(*v),
            ZLESpData::SmallInt(v) => ZLESpDataView::SmallInt(*v),
            ZLESpData::NormalInt(v) => ZLESpDataView::NormalInt(*v),
            ZLESpData::LargeTrimInt(v) => ZLESpDataView::LargeTrimInt(*v),
            ZLESpData::LargeInt(v) => ZLESpDataView::LargeInt(*v),
            ZLESpData::ExLargeInt(v) => ZLESpDataView::ExLargeInt(*v),
        }
    }
}

impl ZLESpDataView {
    /// The bytes that the payload stands for: the string itself, or the
    /// decimal text of the integer.
    pub open spec fn bytes(self) -> Seq<u8> {
        match self {
            ZLESpDataView::SmallStr(v) => v,
            ZLESpDataView::NormalStr(v) => v,
            ZLESpDataView::LargeStr(v) => v,
            ZLESpDataView::ExSmallInt(v) => decimal(v as int),
            ZLESpDataView::SmallInt(v) => decimal(v as int),
            ZLESpDataView::NormalInt(v) => decimal(v as int),
            ZLESpDataView::LargeTrimInt(v) => decimal(v as int),
            ZLESpDataView::LargeInt(v) => decimal(v as int),
            ZLESpDataView::ExLargeInt(v) => decimal(v as int),
        }
    }

    /// The payload is within what its flag has room for.
    pub open spec fn wf(self) -> bool {
        match self {
            ZLESpDataView::SmallStr(v) => v.len() < 0x40,
            ZLESpDataView::NormalStr(v) => v.len() < 0x4000,
            ZLESpDataView::LargeStr(v) => v.len() < 0x1_0000_0000,
            ZLESpDataView::ExSmallInt(v) => v <= 12,
            ZLESpDataView::LargeTrimInt(v) => -0x80_0000 <= v < 0x80_0000,
            _ => true,
        }
    }

    /// A string: the top two bits of the flag are `00`, `01` or `10`. The
    /// length is in the low six bits, in the low fourteen bits of the first two
    /// bytes, or in the four bytes behind the flag, big-endian each time.
    pub open spec fn decode_str(src: Seq<u8>) -> Result<ZLESpDataView, Error> {
        if src.len() < 1 {
            Err(Error::More)
        } else if src[0] / 0x40 == 0 {
            let end = 1 + src[0] % 0x40;
            if src.len() < end {
                Err(Error::More)
            } else {
                Ok(ZLESpDataView::SmallStr(src.subrange(1, end)))
            }
        } else if src[0] / 0x40 == 1 {
            if src.len() < 2 {
                Err(Error::More)
            } else {
                let end = 2 + be_u16(src) % 0x4000;
                if src.len() < end {
                    Err(Error::More)
                } else {
                    Ok(ZLESpDataView::NormalStr(src.subrange(2, end)))
                }
            }
        } else if src[0] / 0x40 == 2 {
            if src.len() < 5 {
                Err(Error::More)
            } else {
                let end = 5 + be_u32(src.skip(1));
                if src.len() < end {
                    Err(Error::More)
                } else {
                    Ok(ZLESpDataView::LargeStr(src.subrange(5, end)))
                }
            }
        } else {
            Err(Error::Other)
        }
    }

    /// An integer that fills two, four or eight bytes behind the flag
    /// `0xC0`, `0xD0` or `0xE0`, in little-endian two's complement.
    pub open spec fn decode_usual_int(src: Seq<u8>) -> Result<ZLESpDataView, Error> {
        if src.len() < 1 {
            Err(Error::More)
        } else if src[0] == 0xC0 {
            if src.len() < 3 {
                Err(Error::More)
            } else {
                Ok(ZLESpDataView::NormalInt(twos(le_u16(src.skip(1)), 0x1_0000) as i16))
            }
        } else if src[0] == 0xD0 {
            if src.len() < 5 {
                Err(Error::More)
            } else {
                Ok(ZLESpDataView::LargeInt(twos(le_u32(src.skip(1)), 0x1_0000_0000) as i32))
            }
        } else if src[0] == 0xE0 {
            if src.len() < 9 {
                Err(Error::More)
            } else {
                Ok(
                    ZLESpDataView::ExLargeInt(
                        twos(le_u64(src.skip(1)), 0x1_0000_0000_0000_0000) as i64,
                    ),
                )
            }
        } else {
            Err(Error::Other)
        }
    }

    /// The other integers: three bytes behind the flag `0xF0`, one byte behind
    /// `0xFE`, or none behind `0xE1` to `0xED`, whose low four bits are the
    /// number plus one.
    pub open spec fn decode_special_int(src: Seq<u8>) -> Result<ZLESpDataView, Error> {
        if src.len() < 1 {
            Err(Error::More)
        } else if src[0] == 0xF0 {
            if src.len() < 4 {
                Err(Error::More)
            } else {
                Ok(ZLESpDataView::LargeTrimInt(twos(le_u24(src.skip(1)), 0x100_0000) as i32))
            }
        } else if src[0] == 0xFE {
            if src.len() < 2 {
                Err(Error::More)
            } else {
                Ok(ZLESpDataView::SmallInt(twos(src[1] as int, 0x100) as i8))
            }
        } else if 0xE1 <= src[0] <= 0xED {
            Ok(ZLESpDataView::ExSmallInt((src[0] - 0xE1) as u8))
        } else {
            Err(Error::Other)
        }
    }
}

impl ZLESpData {
    /// The bytes that the payload stands for.
    pub fn into_data(self) -> (r: Vec<u8>)
        ensures
            r@ == self@.bytes(),
    {
        match self {
            ZLESpData::SmallStr(v) => v,
            ZLESpData::NormalStr(v) => v,
            ZLESpData::LargeStr(v) => v,
            ZLESpData::ExSmallInt(v) => decimal_bytes(v as i64),
            ZLESpData::SmallInt(v) => decimal_bytes(v as i64),
            ZLESpData::NormalInt(v) => decimal_bytes(v as i64),
            ZLESpData::LargeTrimInt(v) => decimal_bytes(v as i64),
            ZLESpData::LargeInt(v) => decimal_bytes(v as i64),
            ZLESpData::ExLargeInt(v) => decimal_bytes(v),
        }
    }

    /// Decodes an integer of three bytes, of one byte or of none.
    pub fn to_special_int(src: &[u8]) -> (r: Result<ZLESpData, Error>)
        ensures
            r matches Ok(v) ==> ZLESpDataView::decode_special_int(src@) == Ok::<
                ZLESpDataView,
                Error,
            >(v@) && v@.wf(),
            r matches Err(e) ==> ZLESpDataView::decode_special_int(src@) == Err::<
                ZLESpDataView,
                Error,
            >(e),
    {
        if src.len() < 1 {
            return Err(Error::More);
        }
        let flag = src[0];
        if flag == REDIS_RDB_FLAG_ZIPLIST_ENTRY_LARGE_TRIM_INT {
            match read_i24_le(&src[1..src.len()]) {
                Ok((value, _)) => Ok(ZLESpData::LargeTrimInt(value)),
                Err(e) => Err(e),
            }
        } else if flag == REDIS_RDB_FLAG_ZIPLIST_ENTRY_SMALL_INT {
            if src.len() < 1 + 1 {
                return Err(Error::More);
            }
            Ok(ZLESpData::SmallInt(byte_to_i8(src[1])))
        } else if 0xE1 <= flag && flag <= 0xED {
            Ok(ZLESpData::ExSmallInt(flag - 0xE1))
        } else {
            Err(Error::Other)
        }
    }

    /// Decodes an integer of two, four or eight bytes.
    pub fn to_usual_int(src: &[u8]) -> (r: Result<ZLESpData, Error>)
        ensures
            r matches Ok(v) ==> ZLESpDataView::decode_usual_int(src@) == Ok::<ZLESpDataView, Error>(
                v@,
            ) && v@.wf(),
            r matches Err(e) ==> ZLESpDataView::decode_usual_int(src@) == Err::<
                ZLESpDataView,
                Error,
            >(e),
    {
        if src.len() < 1 {
            return Err(Error::More);
        }
        let flag = src[0];
        if flag == REDIS_RDB_FLAG_ZIPLIST_ENTRY_NORMAL_INT {
            match read_i16_le(&src[1..src.len()]) {
                Ok((value, _)) => Ok(ZLESpData::NormalInt(value)),
                Err(e) => Err(e),
            }
        } else if flag == REDIS_RDB_FLAG_ZIPLIST_ENTRY_LARGE_INT {
            match read_i32_le(&src[1..src.len()]) {
                Ok((value, _)) => Ok(ZLESpData::LargeInt(value)),
                Err(e) => Err(e),
            }
        } else if flag == REDIS_RDB_FLAG_ZIPLIST_ENTRY_EXLARGE_INT {
            match read_i64_le(&src[1..src.len()]) {
                Ok((value, _)) => Ok(ZLESpData::ExLargeInt(value)),
                Err(e) => Err(e),
            }
        } else {
            Err(Error::Other)
        }
    }

    /// Decodes a string of one of the three size classes.
    pub fn to_str(src: &[u8]) -> (r: Result<ZLESpData, Error>)
        ensures
            r matches Ok(v) ==> ZLESpDataView::decode_str(src@) == Ok::<ZLESpDataView, Error>(v@)
                && v@.wf(),
            r matches Err(e) ==> ZLESpDataView::decode_str(src@) == Err::<ZLESpDataView, Error>(e),
    {
        if src.len() < 1 {
            return Err(Error::More);
        }
        let first = src[0];
        proof {
            lemma_byte_split(first);
        }
        let flag = first >> 6;
        if flag == REDIS_RDB_FLAG_ZIPLIST_ENTRY_SMALL_STR {
            let req: usize = 1;
            let len = (first & 0x3f) as usize;
            if src.len() < req + len {
                return Err(Error::More);
            }
            Ok(ZLESpData::SmallStr(slice_to_vec(&src[req..req + len])))
        } else if flag == REDIS_RDB_FLAG_ZIPLIST_ENTRY_NORMAL_STR {
            let (header, req) = match read_u16_be(src) {
                Ok(read) => read,
                Err(e) => return Err(e),
            };
            assert(header & 0x3fff == header % 0x4000) by (bit_vector);
            let len = (header & 0x3fff) as usize;
            if src.len() < req + len {
                return Err(Error::More);
            }
            Ok(ZLESpData::NormalStr(slice_to_vec(&src[req..req + len])))
        } else if flag == REDIS_RDB_FLAG_ZIPLIST_ENTRY_LARGE_STR {
            let req: usize = 1 + 4;
            let len = match read_u32_be(&src[1..src.len()]) {
                Ok((len, _)) => len as usize,
                Err(e) => return Err(e),
            };
            if src.len() - req < len {
                return Err(Error::More);
            }
            Ok(ZLESpData::LargeStr(slice_to_vec(&src[req..req + len])))
        } else {
            Err(Error::Other)
        }
    }
}

impl Shift for ZLESpData {
    /// The flag, the length bytes of a string, and the payload.
    open spec fn wire_len(v: ZLESpDataView) -> nat {
        match v {
            ZLESpDataView::SmallStr(v) => 1 + v.len(),
            ZLESpDataView::NormalStr(v) => 2 + v.len(),
            ZLESpDataView::LargeStr(v) => 5 + v.len(),
            ZLESpDataView::ExSmallInt(_) => 1,
            ZLESpDataView::SmallInt(_) => 2,
            ZLESpDataView::NormalInt(_) => 3,
            ZLESpDataView::LargeTrimInt(_) => 4,
            ZLESpDataView::LargeInt(_) => 5,
            ZLESpDataView::ExLargeInt(_) => 9,
        }
    }

    fn shift(&self) -> (n: usize) {
        match self {
            ZLESpData::SmallStr(v) => 1 + v.len(),
            ZLESpData::NormalStr(v) => 2 + v.len(),
            ZLESpData::LargeStr(v) => 1 + 4 + v.len(),
            ZLESpData::ExSmallInt(_) => 1,
            ZLESpData::SmallInt(_) => 1 + 1,
            ZLESpData::NormalInt(_) => 1 + 2,
            ZLESpData::LargeTrimInt(_) => 1 + 3,
            ZLESpData::LargeInt(_) => 1 + 4,
            ZLESpData::ExLargeInt(_) => 1 + 8,
        }
    }
}

impl FromBuf for ZLESpData {
    /// The flag byte says which payload follows. The flags of the three
    /// families exclude each other; a flag of none of them is malformed.
    open spec fn decode(src: Seq<u8>) -> Result<ZLESpDataView, Error> {
        or_else(
            ZLESpDataView::decode_str(src),
            or_else(
                ZLESpDataView::decode_usual_int(src),
                or_else(
                    ZLESpDataView::decode_special_int(src),
                    Err(Error::Faild("ziplist entry flag")),
                ),
            ),
        )
    }

    proof fn lemma_decode_fits(src: Seq<u8>) {
    }

    proof fn lemma_decode_prefix(src: Seq<u8>, n: int) {
        let v = Self::decode(src)->Ok_0;
        let w = Self::wire_len(v) as int;
        assert(src.take(n).skip(1) =~= src.skip(1).take(n - 1));
        assert(src.take(n).subrange(1, w) =~= src.subrange(1, w));
        if w >= 2 {
            assert(src.take(n).subrange(2, w) =~= src.subrange(2, w));
        }
        if w >= 5 {
            assert(src.take(n).subrange(5, w) =~= src.subrange(5, w));
            assert(src.take(n).skip(1).skip(4) =~= src.skip(1).skip(4).take(n - 5));
        }
    }

    proof fn lemma_decode_short(src: Seq<u8>) {
        let n = Self::wire_len(Self::decode(src)->Ok_0) - 1;
        if n >= 1 {
            assert(src.take(n).skip(1) =~= src.skip(1).take(n - 1));
        }
    }

    fn from_buf(src: &[u8]) -> (r: Result<ZLESpData, Error>)
        ensures
            r matches Ok(v) ==> v@.wf(),
    {
        if src.len() == 0 {
            return Err(Error::More);
        }
        match ZLESpData::to_str(src) {
            Ok(lp) => return Ok(lp),
            Err(Error::Other) => {},
            Err(err) => return Err(err),
        }
        match ZLESpData::to_usual_int(src) {
            Ok(lp) => return Ok(lp),
            Err(Error::Other) => {},
            Err(err) => return Err(err),
        }
        match ZLESpData::to_special_int(src) {
            Ok(lp) => return Ok(lp),
            Err(Error::Other) => {},
            Err(err) => return Err(err),
        }
        Err(Error::Faild("ziplist entry flag"))
    }
}

/// An entry of a ziplist.
#[derive(Clone, Debug, PartialEq, Eq)]
pub struct ZipListEntry {
    pub prev_len: ZLELen,
    pub sp: ZLESpData,
}

/// What a [`ZipListEntry`] holds.
pub struct ZipListEntryView {
    pub prev_len: ZLELen,
    pub sp: ZLESpDataView,
}

impl View for ZipListEntry {
    type V = ZipListEntryView;

    open spec fn view(&self) -> ZipListEntryView {
        ZipListEntryView { prev_len: self.prev_len, sp: self.sp@ }
    }
}

impl Shift for ZipListEntry {
    open spec fn wire_len(v: ZipListEntryView) -> nat {
        ZLELen::wire_len(v.prev_len) + ZLESpData::wire_len(v.sp)
    }

    fn shift(&self) -> (n: usize) {
        self.prev_len.shift() + self.sp.shift()
    }
}

impl FromBuf for ZipListEntry {
    /// The length of the previous entry, then the payload.
    open spec fn decode(src: Seq<u8>) -> Result<ZipListEntryView, Error> {
        match ZLELen::decode(src) {
            Err(e) => Err(e),
            Ok(prev_len) => match ZLESpData::decode(src.skip(ZLELen::wire_len(prev_len) as int)) {
                Err(e) => Err(e),
                Ok(sp) => Ok(ZipListEntryView { prev_len, sp }),
            },
        }
    }

    proof fn lemma_decode_fits(src: Seq<u8>) {
        if let Ok(prev_len) = ZLELen::decode(src) {
            ZLESpData::lemma_decode_fits(src.skip(ZLELen::wire_len(prev_len) as int));
        }
    }

    proof fn lemma_decode_prefix(src: Seq<u8>, n: int) {
        let at = ZLELen::wire_len(ZLELen::decode(src)->Ok_0) as int;
        ZLELen::lemma_decode_prefix(src, n);
        ZLESpData::lemma_decode_prefix(src.skip(at), n - at);
        assert(src.take(n).skip(at) =~= src.skip(at).take(n - at));
    }

    proof fn lemma_decode_short(src: Seq<u8>) {
        let at = ZLELen::wire_len(ZLELen::decode(src)->Ok_0) as int;
        let n = Self::wire_len(Self::decode(src)->Ok_0) - 1;
        ZLESpData::lemma_decode_fits(src.skip(at));
        ZLELen::lemma_decode_prefix(src, n);
        ZLESpData::lemma_decode_short(src.skip(at));
        assert(src.take(n).skip(at) =~= src.skip(at).take(n - at));
    }

    fn from_buf(src: &[u8]) -> (r: Result<ZipListEntry, Error>)
        ensures
            r matches Ok(v) ==> v@.sp.wf(),
    {
        let len = match ZLELen::from_buf(src) {
            Ok(len) => len,
            Err(e) => return Err(e),
        };
        let sp = match ZLESpData::from_buf(&src[len.shift()..src.len()]) {
            Ok(sp) => sp,
            Err(e) => return Err(e),
        };
        Ok(ZipListEntry { prev_len: len, sp })
    }
}

/// A ziplist: its three header fields, its entries and its terminator.
#[derive(Clone, Debug, PartialEq, Eq)]
pub struct ZipList {
    pub zlbytes: Length,
    pub zltails: ZipListTail,
    pub zllen: ZipListLen,
    pub entries: Vec<ZipListEntry>,
    pub zlend: u8,
}

/// What a [`ZipList`] holds.
pub struct ZipListView {
    pub zlbytes: Length,
    pub zltails: ZipListTail,
    pub zllen: ZipListLen,
    pub entries: Seq<ZipListEntryView>,
    pub zlend: u8,
}

impl View for ZipList {
    type V = ZipListView;

    open spec fn view(&self) -> ZipListView {
        ZipListView {
            zlbytes: self.zlbytes,
            zltails: self.zltails,
            zllen: self.zllen,
            entries: views(self.entries@),
            zlend: self.zlend,
        }
    }
}

impl ZipListView {
    /// The bytes of the three header fields.
    pub open spec fn header_len(self) -> nat {
        Length::wire_len(self.zlbytes) + 4 + 2
    }

    /// Offset of the terminator: the header and the entries lie before it.
    pub open spec fn end(self) -> nat {
        self.header_len() + items_len::<ZipListEntry>(self.entries)
    }

    /// The header counts the entries and announces the size of the header
    /// and the entries, and the terminator is `0xFF`.
    pub open spec fn wf(self) -> bool {
        &&& self.zlbytes.wf()
        &&& self.zlbytes.value() == self.end()
        &&& self.entries.len() == self.zllen.0
        &&& self.zlend == 0xFF
    }
}

impl Shift for ZipList {
    /// The header, the entries and the terminator.
    open spec fn wire_len(v: ZipListView) -> nat {
        v.end() + 1
    }

    fn shift(&self) -> (n: usize) {
        self.zlbytes.shift() + self.zltails.shift() + self.zllen.shift() + self.zlend.shift()
            + items_shift(&self.entries)
    }
}

impl FromBuf for ZipList {
    /// A length header with the announced size, the offset of the last entry
    /// in four bytes and the number of entries in two, both little-endian.
    /// The input must hold at least the announced size. Then come the entries
    /// and, right behind the last of them, the byte `0xFF`. The announced size
    /// is the size of the header and the entries, so the terminator stands
    /// at that offset.
    open spec fn decode(src: Seq<u8>) -> Result<ZipListView, Error> {
        match Length::required(Length::decode(src)) {
            Err(e) => Err(e),
            Ok(zlbytes) => {
                let at = Length::wire_len(zlbytes) as int;
                match ZipListTail::decode(src.skip(at)) {
                    Err(e) => Err(e),
                    Ok(zltails) => match ZipListLen::decode(src.skip(at + 4)) {
                        Err(e) => Err(e),
                        Ok(zllen) => if src.len() < zlbytes.value() {
                            Err(Error::More)
                        } else {
                            match decode_items::<ZipListEntry>(src.skip(at + 6), zllen.0 as nat) {
                                Err(e) => Err(e),
                                Ok(entries) => {
                                    let end = at + 6 + items_len::<ZipListEntry>(entries);
                                    if src.len() <= end {
                                        Err(Error::More)
                                    } else if src[end] != 0xFF {
                                        Err(Error::Faild("ziplist terminator"))
                                    } else if end != zlbytes.value() {
                                        Err(Error::Faild("ziplist size"))
                                    } else {
                                        Ok(
                                            ZipListView {
                                                zlbytes,
                                                zltails,
                                                zllen,
                                                entries,
                                                zlend: 0xFF,
                                            },
                                        )
                                    }
                                },
                            }
                        },
                    },
                }
            },
        }
    }

    proof fn lemma_decode_fits(src: Seq<u8>) {
    }

    proof fn lemma_decode_prefix(src: Seq<u8>, n: int) {
        let v = Self::decode(src)->Ok_0;
        let at = Length::wire_len(v.zlbytes) as int;
        Length::lemma_decode_prefix(src, n);
        assert(src.take(n).skip(at) =~= src.skip(at).take(n - at));
        assert(src.take(n).skip(at + 4) =~= src.skip(at + 4).take(n - at - 4));
        assert(src.take(n).skip(at + 6) =~= src.skip(at + 6).take(n - at - 6));
        lemma_decode_items_prefix::<ZipListEntry>(src.skip(at + 6), v.zllen.0 as nat, n - at - 6);
    }

    proof fn lemma_decode_short(src: Seq<u8>) {
        let v = Self::decode(src)->Ok_0;
        let at = Length::wire_len(v.zlbytes) as int;
        let count = v.zllen.0 as nat;
        let n = v.end() as int;
        lemma_decode_items_fits::<ZipListEntry>(src.skip(at + 6), count);
        Length::lemma_decode_prefix(src, n);
        assert(src.take(n).skip(at) =~= src.skip(at).take(n - at));
        assert(src.take(n).skip(at + 4) =~= src.skip(at + 4).take(n - at - 4));
        assert(src.take(n).skip(at + 6) =~= src.skip(at + 6).take(n - at - 6));
        lemma_decode_items_prefix::<ZipListEntry>(src.skip(at + 6), count, n - at - 6);
    }

    fn from_buf(src: &[u8]) -> (r: Result<ZipList, Error>)
        ensures
            r matches Ok(v) ==> v@.wf(),
    {
        let zlbytes = match Length::from_buf_required(src) {
            Ok(zlbytes) => zlbytes,
            Err(e) => return Err(e),
        };
        let at = zlbytes.shift();
        let zltails = match ZipListTail::from_buf(&src[at..src.len()]) {
            Ok(zltails) => zltails,
            Err(e) => return Err(e),
        };
        let zllen = match ZipListLen::from_buf(&src[at + zltails.shift()..src.len()]) {
            Ok(zllen) => zllen,
            Err(e) => return Err(e),
        };
        if src.len() < zlbytes.length() {
            return Err(Error::More);
        }
        let start = at + zltails.shift() + zllen.shift();
        let entries = match items_from_buf::<ZipListEntry>(
            &src[start..src.len()],
            zllen.0 as usize,
        ) {
            Ok(entries) => entries,
            Err(e) => return Err(e),
        };
        proof {
            lemma_decode_items_fits::<ZipListEntry>(src@.skip(start as int), zllen.0 as nat);
        }
        let pos = start + items_shift(&entries);
        if src.len() <= pos {
            return Err(Error::More);
        }
        let zlend = src[pos];
        if zlend != REDIS_RDB_OPCODE_EOF {
            return Err(Error::Faild("ziplist terminator"));
        }
        if pos != zlbytes.length() {
            return Err(Error::Faild("ziplist size"));
        }
        Ok(ZipList { zlbytes, zltails, zllen, entries, zlend })
    }
}

impl Settled for ZipListTail {
    proof fn lemma_decode_extend(src: Seq<u8>, more: Seq<u8>) {
    }
}

impl Settled for ZipListLen {
    proof fn lemma_decode_extend(src: Seq<u8>, more: Seq<u8>) {
    }
}

impl Settled for ZLELen {
    proof fn lemma_decode_extend(src: Seq<u8>, more: Seq<u8>) {
        assert((src + more).skip(1) =~= src.skip(1) + more);
    }
}

impl Settled for ZLESpData {
    proof fn lemma_decode_extend(src: Seq<u8>, more: Seq<u8>) {
        let v = Self::decode(src)->Ok_0;
        let w = Self::wire_len(v) as int;
        let longer = src + more;
        assert(longer.skip(1) =~= src.skip(1) + more);
        assert(longer.subrange(1, w) =~= src.subrange(1, w));
        if w >= 2 {
            assert(longer.subrange(2, w) =~= src.subrange(2, w));
        }
        if w >= 5 {
            assert(longer.subrange(5, w) =~= src.subrange(5, w));
            assert(longer.skip(1).skip(4) =~= src.skip(1).skip(4) + more);
        }
    }
}

impl Settled for ZipListEntry {
    proof fn lemma_decode_extend(src: Seq<u8>, more: Seq<u8>) {
        let at = ZLELen::wire_len(ZLELen::decode(src)->Ok_0) as int;
        ZLELen::lemma_decode_extend(src, more);
        ZLESpData::lemma_decode_extend(src.skip(at), more);
        assert((src + more).skip(at) =~= src.skip(at) + more);
    }
}

impl Settled for ZipList {
    proof fn lemma_decode_extend(src: Seq<u8>, more: Seq<u8>) {
        let v = Self::decode(src)->Ok_0;
        let at = Length::wire_len(v.zlbytes) as int;
        let longer = src + more;
        Length::lemma_decode_extend(src, more);
        assert(longer.skip(at) =~= src.skip(at) + more);
        assert(longer.skip(at + 4) =~= src.skip(at + 4) + more);
        assert(longer.skip(at + 6) =~= src.skip(at + 6) + more);
        lemma_decode_items_extend::<ZipListEntry>(src.skip(at + 6), v.zllen.0 as nat, more);
    }
}

} // verus!
