//! The string value in its three encodings: raw bytes behind a length, a
//! small integer, or an LZF-compressed payload.

use crate::codec::length::Length;
use crate::com::{
    byte_to_i8, le_u16, le_u32, lemma_byte_split, read_i16_le, read_i32_le, twos, Error, FromBuf,
    Settled, Shift,
};
use crate::consts::{
    REDIS_RDB_ENCVAL, REDIS_RDB_ENC_INT16, REDIS_RDB_ENC_INT32, REDIS_RDB_ENC_INT8,
    REDIS_RDB_ENC_LZF,
};
use crate::decimal::{decimal, decimal_bytes};
use vstd::prelude::*;
use vstd::slice::slice_to_vec;

verus! {

/// An integer stored in place of its decimal text.
#[derive(Debug, Clone, Copy, PartialEq, Eq)]
pub enum StrInt {
    Small(i8),
    Normal(i16),
    Large(i32),
}

impl View for StrInt {
    type V = StrInt;

    open spec fn view(&self) -> StrInt {
        *self
    }
}

impl StrInt {
    /// The integer, whatever its stored width.
    pub open spec fn number(self) -> int {
        match self {
            StrInt::Small(v) => v as int,
            StrInt::Normal(v) => v as int,
            StrInt::Large(v) => v as int,
        }
    }

    /// The integer, widened to thirty-two bits.
    pub fn value(&self) -> (r: i32)
        ensures
            r == self.number(),
    {
        match self {
            StrInt::Small(value) => *value as i32,
            StrInt::Normal(value) => *value as i32,
            StrInt::Large(value) => *value,
        }
    }
}

impl Shift for StrInt {
    open spec fn wire_len(v: StrInt) -> nat {
        match v {
            StrInt::Small(_) => 2,
            StrInt::Normal(_) => 3,
            StrInt::Large(_) => 5,
        }
    }

    fn shift(&self) -> (n: usize) {
        match self {
            StrInt::Small(_) => 1 + 1,
            StrInt::Normal(_) => 1 + 2,
            StrInt::Large(_) => 1 + 4,
        }
    }
}

impl FromBuf for StrInt {
    /// The first byte has its top two bits set; its low six bits say how many
    /// bytes follow: `0` one, `1` two, `2` four. They hold the integer in
    /// little-endian two's complement. Any other first byte is no integer.
    open spec fn decode(src: Seq<u8>) -> Result<StrInt, Error> {
        if src.len() < 1 {
            Err(Error::More)
        } else if src[0] / 0x40 != 3 {
            Err(Error::Other)
        } else if src[0] % 0x40 == 0 {
            if src.len() < 2 {
                Err(Error::More)
            } else {
                Ok(StrInt::Small(twos(src[1] as int, 0x100) as i8))
            }
        } else if src[0] % 0x40 == 1 {
            if src.len() < 3 {
                Err(Error::More)
            } else {
                Ok(StrInt::Normal(twos(le_u16(src.skip(1)), 0x1_0000) as i16))
            }
        } else if src[0] % 0x40 == 2 {
            if src.len() < 5 {
                Err(Error::More)
            } else {
                Ok(StrInt::Large(twos(le_u32(src.skip(1)), 0x1_0000_0000) as i32))
            }
        } else {
            Err(Error::Other)
        }
    }

    proof fn lemma_decode_fits(src: Seq<u8>) {
    }

    proof fn lemma_decode_prefix(src: Seq<u8>, n: int) {
        assert(src.take(n).skip(1) =~= src.skip(1).take(n - 1));
    }

    proof fn lemma_decode_short(src: Seq<u8>) {
    }

    fn from_buf(src: &[u8]) -> (r: Result<StrInt, Error>) {
        if src.len() < 1 {
            return Err(Error::More);
        }
        let first = src[0];
        proof {
            lemma_byte_split(first);
        }
        if first >> 6 != REDIS_RDB_ENCVAL {
            return Err(Error::Other);
        }
        let ltype = first & 0x3f;
        if ltype == REDIS_RDB_ENC_INT8 {
            if src.len() < 1 + 1 {
                return Err(Error::More);
            }
            Ok(StrInt::Small(byte_to_i8(src[1])))
        } else if ltype == REDIS_RDB_ENC_INT16 {
            match read_i16_le(&src[1..src.len()]) {
                Ok((value, _)) => Ok(StrInt::Normal(value)),
                Err(e) => Err(e),
            }
        } else if ltype == REDIS_RDB_ENC_INT32 {
            match read_i32_le(&src[1..src.len()]) {
                Ok((value, _)) => Ok(StrInt::Large(value)),
                Err(e) => Err(e),
            }
        } else {
            Err(Error::Other)
        }
    }
}

/// The error type of the `lzf` crate.
#[verifier::external_type_specification]
#[verifier::external_body]
pub struct ExLzfError(lzf::LzfError);

/// What LZF decompression makes of `data` when its output may take up to
/// `limit` bytes: the decompressed bytes, or nothing where `data` is corrupt
/// or the output would not fit.
pub uninterp spec fn lzf_decompressed(data: Seq<u8>, limit: usize) -> Option<Seq<u8>>;

/// `lzf::decompress`: decompresses `data` into at most `limit` bytes. The
/// outcome depends on the two arguments alone. The crate allocates `limit`
/// bytes at once and keeps offsets into them in thirty-two signed bits, so
/// `limit` must stay within those.
#[verifier::external_body]
fn lzf_decompress(data: &[u8], limit: usize) -> (r: Result<Vec<u8>, lzf::LzfError>)
    requires
        limit <= i32::MAX,
    ensures
        r matches Ok(v) ==> lzf_decompressed(data@, limit) == Some(v@),
        r is Err ==> lzf_decompressed(data@, limit) is None,
{
    lzf::decompress(data, limit)
}

/// A string stored compressed: the two lengths of its header and the
/// decompressed payload.
#[derive(Debug, Clone, PartialEq, Eq)]
pub struct LZFString {
    pub compressed_len: Length,
    pub original_len: Length,
    pub buf: Vec<u8>,
}

/// What an [`LZFString`] holds.
pub struct LZFStringView {
    pub compressed_len: Length,
    pub original_len: Length,
    pub buf: Seq<u8>,
}

impl View for LZFString {
    type V = LZFStringView;

    open spec fn view(&self) -> LZFStringView {
        LZFStringView {
            compressed_len: self.compressed_len,
            original_len: self.original_len,
            buf: self.buf@,
        }
    }
}

impl LZFStringView {
    /// Both lengths fit their headers and the payload has the length that the
    /// header announced.
    pub open spec fn wf(self) -> bool {
        &&& self.compressed_len.wf()
        &&& self.original_len.wf()
        &&& self.buf.len() == self.original_len.value()
    }

    /// What becomes of a compressed string once decompression has answered
    /// with `outcome`: the payload must have exactly the announced length.
    pub open spec fn assemble(
        compressed_len: Length,
        original_len: Length,
        outcome: Option<Seq<u8>>,
    ) -> Result<LZFStringView, Error> {
        match outcome {
            Some(buf) if buf.len() == original_len.value() => Ok(
                LZFStringView { compressed_len, original_len, buf },
            ),
            _ => Err(Error::Faild("lzf")),
        }
    }
}

impl LZFString {
    /// Builds the string from its header and the outcome of decompression.
    /// A failed decompression, and a payload whose length is not the one
    /// announced, are malformed input.
    pub fn assemble(
        compressed_len: Length,
        original_len: Length,
        outcome: Result<Vec<u8>, lzf::LzfError>,
    ) -> (r: Result<LZFString, Error>)
        ensures
            match (r, outcome) {
                (Ok(s), Ok(buf)) => buf@.len() == original_len.value() && s@ == (LZFStringView {
                    compressed_len,
                    original_len,
                    buf: buf@,
                }),
                (Err(e), Ok(buf)) => buf@.len() != original_len.value() && e == Error::Faild(
                    "lzf",
                ),
                (Err(e), Err(_)) => e == Error::Faild("lzf"),
                (Ok(_), Err(_)) => false,
            },
    {
        match outcome {
            Ok(buf) => {
                if buf.len() == original_len.length() {
                    Ok(LZFString { compressed_len, original_len, buf })
                } else {
                    Err(Error::Faild("lzf"))
                }
            },
            Err(_) => Err(Error::Faild("lzf")),
        }
    }
}

impl Shift for LZFString {
    open spec fn wire_len(v: LZFStringView) -> nat {
        1 + Length::wire_len(v.compressed_len) + Length::wire_len(v.original_len)
            + v.compressed_len.value()
    }

    fn shift(&self) -> (n: usize) {
        1 + self.compressed_len.shift() + self.original_len.shift() + self.compressed_len.length()
    }
}

/// A length header inside a compressed string: one that is no length makes
/// the string malformed.
pub open spec fn lzf_header(r: Result<Length, Error>) -> Result<Length, Error> {
    match r {
        Err(Error::Other) => Err(Error::Faild("lzf")),
        _ => r,
    }
}

impl FromBuf for LZFString {
    /// The first byte is `11000011`. Two length headers follow, the compressed
    /// and the original length, then the compressed payload, which must
    /// decompress to exactly the original length.
    open spec fn decode(src: Seq<u8>) -> Result<LZFStringView, Error> {
        if src.len() < 1 {
            Err(Error::More)
        } else if src[0] / 0x40 != 3 || src[0] % 0x40 != 3 {
            Err(Error::Other)
        } else {
            match lzf_header(Length::decode(src.skip(1))) {
                Err(e) => Err(e),
                Ok(compressed_len) => {
                    let second = 1 + Length::wire_len(compressed_len);
                    match lzf_header(Length::decode(src.skip(second as int))) {
                        Err(e) => Err(e),
                        Ok(original_len) => {
                            let start = second + Length::wire_len(original_len);
                            let end = start + compressed_len.value();
                            if src.len() < end {
                                Err(Error::More)
                            } else {
                                LZFStringView::assemble(
                                    compressed_len,
                                    original_len,
                                    lzf_decompressed(
                                        src.subrange(start as int, end as int),
                                        original_len.value() as usize,
                                    ),
                                )
                            }
                        },
                    }
                },
            }
        }
    }

    proof fn lemma_decode_fits(src: Seq<u8>) {
    }

    proof fn lemma_decode_prefix(src: Seq<u8>, n: int) {
        let compressed_len = Length::decode(src.skip(1))->Ok_0;
        let second = 1 + Length::wire_len(compressed_len);
        let original_len = Length::decode(src.skip(second as int))->Ok_0;
        let start = second + Length::wire_len(original_len);
        let end = start + compressed_len.value();
        Length::lemma_decode_prefix(src.skip(1), n - 1);
        assert(src.take(n).skip(1) =~= src.skip(1).take(n - 1));
        Length::lemma_decode_prefix(src.skip(second as int), n - second);
        assert(src.take(n).skip(second as int) =~= src.skip(second as int).take(n - second));
        assert(src.take(n).subrange(start as int, end as int) =~= src.subrange(
            start as int,
            end as int,
        ));
    }

    proof fn lemma_decode_short(src: Seq<u8>) {
        let compressed_len = Length::decode(src.skip(1))->Ok_0;
        let second = 1 + Length::wire_len(compressed_len);
        let original_len = Length::decode(src.skip(second as int))->Ok_0;
        let n = Self::wire_len(Self::decode(src)->Ok_0) - 1;
        Length::lemma_decode_prefix(src.skip(1), n - 1);
        assert(src.take(n).skip(1) =~= src.skip(1).take(n - 1));
        assert(src.take(n).skip(second as int) =~= src.skip(second as int).take(n - second));
        if compressed_len.value() >= 1 {
            Length::lemma_decode_prefix(src.skip(second as int), n - second);
        } else {
            Length::lemma_decode_short(src.skip(second as int));
        }
    }

    fn from_buf(src: &[u8]) -> (r: Result<LZFString, Error>)
        ensures
            r matches Ok(v) ==> v@.wf(),
    {
        if src.len() < 1 {
            return Err(Error::More);
        }
        let first = src[0];
        proof {
            lemma_byte_split(first);
        }
        if first >> 6 != REDIS_RDB_ENCVAL || first & 0x3f != REDIS_RDB_ENC_LZF {
            return Err(Error::Other);
        }
        let compressed_len = match Length::from_buf(&src[1..src.len()]) {
            Ok(len) => len,
            Err(Error::Other) => return Err(Error::Faild("lzf")),
            Err(e) => return Err(e),
        };
        proof {
            Length::lemma_decode_fits(src@.skip(1));
        }
        let second = 1 + compressed_len.shift();
        let original_len = match Length::from_buf(&src[second..src.len()]) {
            Ok(len) => len,
            Err(Error::Other) => return Err(Error::Faild("lzf")),
            Err(e) => return Err(e),
        };
        proof {
            Length::lemma_decode_fits(src@.skip(second as int));
        }
        let shifted = second + original_len.shift();
        if src.len() - shifted < compressed_len.length() {
            return Err(Error::More);
        }
        let payload = &src[shifted..shifted + compressed_len.length()];
        let outcome = lzf_decompress(payload, original_len.length());
        LZFString::assemble(compressed_len, original_len, outcome)
    }
}

/// A string value of the snapshot.
#[derive(Debug, Clone, PartialEq, Eq)]
pub enum RedisString {
    LengthPrefix { len: Length, data: Vec<u8> },
    StrInt(StrInt),
    LZF(LZFString),
}

/// What a [`RedisString`] holds.
pub enum RedisStringView {
    LengthPrefix { len: Length, data: Seq<u8> },
    StrInt(StrInt),
    LZF(LZFStringView),
}

impl View for RedisString {
    type V = RedisStringView;

    open spec fn view(&self) -> RedisStringView {
        match self {
            RedisString::LengthPrefix { len, data } => RedisStringView::LengthPrefix {
                len: *len,
                data: data@,
            },
            RedisString::StrInt(v) => RedisStringView::StrInt(*v),
            RedisString::LZF(v) => RedisStringView::LZF(v@),
        }
    }
}

impl RedisStringView {
    /// The bytes that the string stands for: the raw payload, the decimal
    /// text of the integer, or the decompressed payload.
    pub open spec fn bytes(self) -> Seq<u8> {
        match self {
            RedisStringView::LengthPrefix { data, .. } => data,
            RedisStringView::StrInt(v) => decimal(v.number()),
            RedisStringView::LZF(v) => v.buf,
        }
    }

    /// The lengths fit their headers and the payload has the announced length.
    pub open spec fn wf(self) -> bool {
        match self {
            RedisStringView::LengthPrefix { len, data } => len.wf() && data.len() == len.value(),
            RedisStringView::StrInt(_) => true,
            RedisStringView::LZF(v) => v.wf(),
        }
    }

    /// Raw bytes behind a length header.
    pub open spec fn decode_length_prefix(src: Seq<u8>) -> Result<RedisStringView, Error> {
        match Length::decode(src) {
            Err(e) => Err(e),
            Ok(len) => {
                let start = Length::wire_len(len);
                if src.len() < start + len.value() {
                    Err(Error::More)
                } else {
                    Ok(
                        RedisStringView::LengthPrefix {
                            len,
                            data: src.subrange(start as int, (start + len.value()) as int),
                        },
                    )
                }
            },
        }
    }

    /// An integer stored in place of its text.
    pub open spec fn decode_str_int(src: Seq<u8>) -> Result<RedisStringView, Error> {
        match StrInt::decode(src) {
            Err(e) => Err(e),
            Ok(v) => Ok(RedisStringView::StrInt(v)),
        }
    }

    /// A compressed payload.
    pub open spec fn decode_lzf(src: Seq<u8>) -> Result<RedisStringView, Error> {
        match LZFString::decode(src) {
            Err(e) => Err(e),
            Ok(v) => Ok(RedisStringView::LZF(v)),
        }
    }
}

impl RedisString {
    /// The bytes that the string stands for.
    pub fn into_data(self) -> (r: Vec<u8>)
        ensures
            r@ == self@.bytes(),
    {
        match self {
            RedisString::LengthPrefix { data, .. } => data,
            RedisString::StrInt(v) => decimal_bytes(v.value() as i64),
            RedisString::LZF(LZFString { buf, .. }) => buf,
        }
    }

    /// A copy with the same contents.
    pub fn copy(&self) -> (r: RedisString)
        ensures
            r@ == self@,
    {
        match self {
            RedisString::LengthPrefix { len, data } => RedisString::LengthPrefix {
                len: *len,
                data: slice_to_vec(data.as_slice()),
            },
            RedisString::StrInt(v) => RedisString::StrInt(*v),
            RedisString::LZF(v) => RedisString::LZF(
                LZFString {
                    compressed_len: v.compressed_len,
                    original_len: v.original_len,
                    buf: slice_to_vec(v.buf.as_slice()),
                },
            ),
        }
    }

    /// Decodes raw bytes behind a length header.
    pub fn length_prefix(src: &[u8]) -> (r: Result<RedisString, Error>)
        ensures
            r matches Ok(v) ==> RedisStringView::decode_length_prefix(src@) == Ok::<
                RedisStringView,
                Error,
            >(v@),
            r matches Err(e) ==> RedisStringView::decode_length_prefix(src@) == Err::<
                RedisStringView,
                Error,
            >(e),
    {
        let length = match Length::from_buf(src) {
            Ok(length) => length,
            Err(e) => return Err(e),
        };
        proof {
            Length::lemma_decode_fits(src@);
        }
        let start = length.shift();
        if src.len() - start < length.length() {
            return Err(Error::More);
        }
        let data = slice_to_vec(&src[start..start + length.length()]);
        Ok(RedisString::LengthPrefix { len: length, data })
    }

    /// Decodes an integer stored in place of its text.
    pub fn str_int(src: &[u8]) -> (r: Result<RedisString, Error>)
        ensures
            r matches Ok(v) ==> RedisStringView::decode_str_int(src@) == Ok::<
                RedisStringView,
                Error,
            >(v@),
            r matches Err(e) ==> RedisStringView::decode_str_int(src@) == Err::<
                RedisStringView,
                Error,
            >(e),
    {
        match StrInt::from_buf(src) {
            Ok(sint) => Ok(RedisString::StrInt(sint)),
            Err(e) => Err(e),
        }
    }

    /// Decodes a compressed payload.
    pub fn lzf(src: &[u8]) -> (r: Result<RedisString, Error>)
        ensures
            r matches Ok(v) ==> RedisStringView::decode_lzf(src@) == Ok::<RedisStringView, Error>(
                v@,
            ),
            r matches Err(e) ==> RedisStringView::decode_lzf(src@) == Err::<RedisStringView, Error>(
                e,
            ),
    {
        match LZFString::from_buf(src) {
            Ok(lzf) => Ok(RedisString::LZF(lzf)),
            Err(e) => Err(e),
        }
    }
}

impl Shift for RedisString {
    open spec fn wire_len(v: RedisStringView) -> nat {
        match v {
            RedisStringView::LengthPrefix { len, data } => Length::wire_len(len) + data.len(),
            RedisStringView::StrInt(v) => StrInt::wire_len(v),
            RedisStringView::LZF(v) => LZFString::wire_len(v),
        }
    }

    fn shift(&self) -> (n: usize) {
        match self {
            RedisString::LengthPrefix { len, data } => len.shift() + data.len(),
            RedisString::StrInt(ival) => ival.shift(),
            RedisString::LZF(lzf) => lzf.shift(),
        }
    }
}

/// The first of two attempts that applies: `second` is tried only where
/// `first` says that its kind does not apply.
pub open spec fn or_else<T>(first: Result<T, Error>, second: Result<T, Error>) -> Result<T, Error> {
    match first {
        Err(Error::Other) => second,
        _ => first,
    }
}

impl FromBuf for RedisString {
    /// The three encodings are tried in turn: raw bytes behind a length, a
    /// small integer, a compressed payload. Input that is none of them is
    /// malformed.
    open spec fn decode(src: Seq<u8>) -> Result<RedisStringView, Error> {
        or_else(
            RedisStringView::decode_length_prefix(src),
            or_else(
                RedisStringView::decode_str_int(src),
                or_else(
                    RedisStringView::decode_lzf(src),
                    Err(Error::Faild("not a RedisString")),
                ),
            ),
        )
    }

    proof fn lemma_decode_fits(src: Seq<u8>) {
        LZFString::lemma_decode_fits(src);
    }

    proof fn lemma_decode_prefix(src: Seq<u8>, n: int) {
        match Self::decode(src)->Ok_0 {
            RedisStringView::LengthPrefix { len, data } => {
                Length::lemma_decode_prefix(src, n);
                let start = Length::wire_len(len);
                let end = (start + len.value()) as int;
                assert(src.take(n).subrange(start as int, end) =~= src.subrange(start as int, end));
            },
            RedisStringView::StrInt(v) => {
                StrInt::lemma_decode_prefix(src, n);
            },
            RedisStringView::LZF(v) => {
                LZFString::lemma_decode_prefix(src, n);
            },
        }
    }

    proof fn lemma_decode_short(src: Seq<u8>) {
        match Self::decode(src)->Ok_0 {
            RedisStringView::LengthPrefix { len, data } => {
                if len.value() >= 1 {
                    Length::lemma_decode_prefix(src, Self::wire_len(Self::decode(src)->Ok_0) - 1);
                } else {
                    Length::lemma_decode_short(src);
                }
            },
            RedisStringView::StrInt(v) => {
                StrInt::lemma_decode_short(src);
            },
            RedisStringView::LZF(v) => {
                LZFString::lemma_decode_short(src);
            },
        }
    }

    fn from_buf(src: &[u8]) -> (r: Result<RedisString, Error>)
        ensures
            r matches Ok(v) ==> v@.wf(),
    {
        match RedisString::length_prefix(src) {
            Ok(lp) => return Ok(lp),
            Err(Error::Other) => {},
            Err(err) => return Err(err),
        }
        match RedisString::str_int(src) {
            Ok(lp) => return Ok(lp),
            Err(Error::Other) => {},
            Err(err) => return Err(err),
        }
        match RedisString::lzf(src) {
            Ok(lp) => return Ok(lp),
            Err(Error::Other) => {},
            Err(err) => return Err(err),
        }
        Err(Error::Faild("not a RedisString"))
    }
}

impl Settled for StrInt {
    proof fn lemma_decode_extend(src: Seq<u8>, more: Seq<u8>) {
        assert((src + more).skip(1) =~= src.skip(1) + more);
    }
}

impl Settled for LZFString {
    proof fn lemma_decode_extend(src: Seq<u8>, more: Seq<u8>) {
        let compressed_len = Length::decode(src.skip(1))->Ok_0;
        let second = 1 + Length::wire_len(compressed_len);
        let original_len = Length::decode(src.skip(second as int))->Ok_0;
        let start = second + Length::wire_len(original_len);
        let end = start + compressed_len.value();
        let longer = src + more;
        Length::lemma_decode_extend(src.skip(1), more);
        assert(longer.skip(1) =~= src.skip(1) + more);
        Length::lemma_decode_extend(src.skip(second as int), more);
        assert(longer.skip(second as int) =~= src.skip(second as int) + more);
        assert(longer.subrange(start as int, end as int) =~= src.subrange(
            start as int,
            end as int,
        ));
    }
}

impl Settled for RedisString {
    proof fn lemma_decode_extend(src: Seq<u8>, more: Seq<u8>) {
        match Self::decode(src)->Ok_0 {
            RedisStringView::LengthPrefix { len, data } => {
                Length::lemma_decode_extend(src, more);
                let start = Length::wire_len(len);
                let end = (start + len.value()) as int;
                assert((src + more).subrange(start as int, end) =~= src.subrange(
                    start as int,
                    end,
                ));
            },
            RedisStringView::StrInt(v) => {
                StrInt::lemma_decode_extend(src, more);
            },
            RedisStringView::LZF(v) => {
                LZFString::lemma_decode_extend(src, more);
            },
        }
    }
}

} // verus!
