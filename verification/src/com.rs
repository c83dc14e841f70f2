//! Shared vocabulary of the decoders: the error type, the two decoder traits
//! and the fixed-width integer readers.

use byteorder::{BigEndian, ByteOrder, LittleEndian};
use core::cmp::Ordering;
use vstd::std_specs::cmp::PartialOrdSpec;
use vstd::prelude::*;

verus! {

/// Why a decoder did not produce a value.
#[derive(Debug, Clone, Copy, PartialEq, Eq)]
pub enum Error {
    /// The input ends before the entity does; retry once more bytes are there.
    More,
    /// The entity is not of the kind asked for; the caller tries the next kind.
    Other,
    /// The input breaks the format; the text names the place.
    Faild(&'static str),
}

/// The views of the elements of `s`, in order.
pub open spec fn views<T: View>(s: Seq<T>) -> Seq<T::V> {
    Seq::new(s.len(), |i: int| s[i]@)
}

/// The views of a sequence with one more element.
pub proof fn lemma_views_push<T: View>(s: Seq<T>, x: T)
    ensures
        views(s.push(x)) == views(s).push(x@),
{
    assert(views(s.push(x)) =~= views(s).push(x@));
}

/// A value that knows how many bytes it occupies on the wire.
pub trait Shift: View {
    /// Number of source bytes that a value with view `v` was decoded from.
    spec fn wire_len(v: Self::V) -> nat;

    /// The number of source bytes that the value was decoded from.
    fn shift(&self) -> (n: usize)
        requires
            Self::wire_len(self@) <= usize::MAX,
        ensures
            n == Self::wire_len(self@),
    ;
}

/// A value that is decoded from the front of a byte slice.
pub trait FromBuf: Shift + Sized {
    /// What the front of `src` decodes to.
    spec fn decode(src: Seq<u8>) -> Result<Self::V, Error>;

    /// A decoded value is no wider than the input it came from.
    proof fn lemma_decode_fits(src: Seq<u8>)
        ensures
            Self::decode(src) matches Ok(v) ==> Self::wire_len(v) <= src.len(),
    ;

    /// Without the bytes behind a value the same value is decoded.
    proof fn lemma_decode_prefix(src: Seq<u8>, n: int)
        requires
            Self::decode(src) matches Ok(v) && Self::wire_len(v) <= n <= src.len(),
        ensures
            Self::decode(src.take(n)) == Self::decode(src),
    ;

    /// Input that is one byte short of a value asks for more bytes.
    proof fn lemma_decode_short(src: Seq<u8>)
        requires
            Self::decode(src) matches Ok(v) && Self::wire_len(v) >= 1,
        ensures
            Self::decode(src.take(Self::wire_len(Self::decode(src)->Ok_0) - 1)) == Err::<
                Self::V,
                Error,
            >(Error::More),
    ;

    /// Decodes a value from the front of `src`.
    fn from_buf(src: &[u8]) -> (r: Result<Self, Error>)
        ensures
            r matches Ok(v) ==> Self::decode(src@) == Ok::<Self::V, Error>(v@),
            r matches Err(e) ==> Self::decode(src@) == Err::<Self::V, Error>(e),
    ;
}

/// A decoder whose values are settled once they are decoded: bytes that are
/// added behind the input do not change them. Every decoder is among them
/// but that of the expiry: from no input there is no expiry, and the bytes
/// that are added may hold one.
pub trait Settled: FromBuf {
    /// Bytes added behind a decoded value do not change what is decoded.
    proof fn lemma_decode_extend(src: Seq<u8>, more: Seq<u8>)
        requires
            Self::decode(src) is Ok,
        ensures
            Self::decode(src + more) == Self::decode(src),
    ;
}

/// Unsigned value of the first two bytes of `s`, least significant first.
pub open spec fn le_u16(s: Seq<u8>) -> int {
    s[0] as int + 0x100 * (s[1] as int)
}

/// Unsigned value of the first three bytes of `s`, least significant first.
pub open spec fn le_u24(s: Seq<u8>) -> int {
    s[0] as int + 0x100 * (s[1] as int) + 0x1_0000 * (s[2] as int)
}

/// Unsigned value of the first four bytes of `s`, least significant first.
pub open spec fn le_u32(s: Seq<u8>) -> int {
    s[0] as int + 0x100 * (s[1] as int) + 0x1_0000 * (s[2] as int) + 0x100_0000 * (s[3] as int)
}

/// Unsigned value of the first eight bytes of `s`, least significant first.
pub open spec fn le_u64(s: Seq<u8>) -> int {
    le_u32(s) + 0x1_0000_0000 * le_u32(s.skip(4))
}

/// Unsigned value of the first two bytes of `s`, most significant first.
pub open spec fn be_u16(s: Seq<u8>) -> int {
    0x100 * (s[0] as int) + s[1] as int
}

/// Unsigned value of the first four bytes of `s`, most significant first.
pub open spec fn be_u32(s: Seq<u8>) -> int {
    0x100_0000 * (s[0] as int) + 0x1_0000 * (s[1] as int) + 0x100 * (s[2] as int) + s[3] as int
}

/// The two's-complement reading of `value`, an unsigned number below `modulus`.
pub open spec fn twos(value: int, modulus: int) -> int {
    if 2 * value >= modulus {
        value - modulus
    } else {
        value
    }
}

/// `byteorder::LittleEndian::read_i32`: the first four bytes of `src` as a
/// little-endian integer in two's complement. It panics on fewer than four bytes.
#[verifier::external_body]
pub fn buf_to_i32(src: &[u8]) -> (r: i32)
    requires
        src@.len() >= 4,
    ensures
        r == twos(le_u32(src@), 0x1_0000_0000),
{
    LittleEndian::read_i32(src)
}

/// The first three bytes of `src` as a little-endian integer in two's
/// complement, widened with its sign.
pub fn buf_to_i32_trim(src: &[u8]) -> (r: i32)
    requires
        src@.len() >= 3,
    ensures
        r == twos(le_u24(src@), 0x100_0000),
{
    let low: i32 = src[0] as i32 + 0x100 * (src[1] as i32) + 0x1_0000 * (src[2] as i32);
    if low >= 0x80_0000 {
        low - 0x100_0000
    } else {
        low
    }
}

/// `byteorder::LittleEndian::read_u32`: the first four bytes of `src` as a
/// little-endian unsigned integer. It panics on fewer than four bytes.
#[verifier::external_body]
pub fn buf_to_u32(src: &[u8]) -> (r: u32)
    requires
        src@.len() >= 4,
    ensures
        r == le_u32(src@),
{
    LittleEndian::read_u32(src)
}

/// `byteorder::BigEndian::read_u32`: the first four bytes of `src` as a
/// big-endian unsigned integer. It panics on fewer than four bytes.
#[verifier::external_body]
pub fn buf_to_u32_big(src: &[u8]) -> (r: u32)
    requires
        src@.len() >= 4,
    ensures
        r == be_u32(src@),
{
    BigEndian::read_u32(src)
}

/// `byteorder::LittleEndian::read_u64`: the first eight bytes of `src` as a
/// little-endian unsigned integer. It panics on fewer than eight bytes.
#[verifier::external_body]
pub fn buf_to_u64(src: &[u8]) -> (r: u64)
    requires
        src@.len() >= 8,
    ensures
        r == le_u64(src@),
{
    LittleEndian::read_u64(src)
}

/// `byteorder::LittleEndian::read_i64`: the first eight bytes of `src` as a
/// little-endian integer in two's complement. It panics on fewer than eight bytes.
#[verifier::external_body]
pub fn buf_to_i64(src: &[u8]) -> (r: i64)
    requires
        src@.len() >= 8,
    ensures
        r == twos(le_u64(src@), 0x1_0000_0000_0000_0000),
{
    LittleEndian::read_i64(src)
}

/// `byteorder::LittleEndian::read_u16`: the first two bytes of `src` as a
/// little-endian unsigned integer. It panics on fewer than two bytes.
#[verifier::external_body]
pub fn buf_to_u16(src: &[u8]) -> (r: u16)
    requires
        src@.len() >= 2,
    ensures
        r == le_u16(src@),
{
    LittleEndian::read_u16(src)
}

/// `byteorder::BigEndian::read_u16`: the first two bytes of `src` as a
/// big-endian unsigned integer. It panics on fewer than two bytes.
#[verifier::external_body]
pub fn buf_to_u16_big(src: &[u8]) -> (r: u16)
    requires
        src@.len() >= 2,
    ensures
        r == be_u16(src@),
{
    BigEndian::read_u16(src)
}

/// `byteorder::LittleEndian::read_i16`: the first two bytes of `src` as a
/// little-endian integer in two's complement. It panics on fewer than two bytes.
#[verifier::external_body]
pub fn buf_to_i16(src: &[u8]) -> (r: i16)
    requires
        src@.len() >= 2,
    ensures
        r == twos(le_u16(src@), 0x1_0000),
{
    LittleEndian::read_i16(src)
}

/// The first two bytes of `src` as a big-endian unsigned integer, and the two
/// bytes that it takes.
pub fn read_u16_be(src: &[u8]) -> (r: Result<(u16, usize), Error>)
    ensures
        r == if src@.len() < 2 {
            Err::<(u16, usize), Error>(Error::More)
        } else {
            Ok::<(u16, usize), Error>((be_u16(src@) as u16, 2))
        },
{
    if src.len() < 2 {
        return Err(Error::More);
    }
    Ok((buf_to_u16_big(src), 2))
}

/// The first four bytes of `src` as a big-endian unsigned integer, and the
/// four bytes that it takes.
pub fn read_u32_be(src: &[u8]) -> (r: Result<(u32, usize), Error>)
    ensures
        r == if src@.len() < 4 {
            Err::<(u32, usize), Error>(Error::More)
        } else {
            Ok::<(u32, usize), Error>((be_u32(src@) as u32, 4))
        },
{
    if src.len() < 4 {
        return Err(Error::More);
    }
    Ok((buf_to_u32_big(src), 4))
}

/// The first two bytes of `src` as a little-endian integer in two's
/// complement, and the two bytes that it takes.
pub fn read_i16_le(src: &[u8]) -> (r: Result<(i16, usize), Error>)
    ensures
        r == if src@.len() < 2 {
            Err::<(i16, usize), Error>(Error::More)
        } else {
            Ok::<(i16, usize), Error>((twos(le_u16(src@), 0x1_0000) as i16, 2))
        },
{
    if src.len() < 2 {
        return Err(Error::More);
    }
    Ok((buf_to_i16(src), 2))
}

/// The first three bytes of `src` as a little-endian integer in two's
/// complement, widened with its sign, and the three bytes that it takes.
pub fn read_i24_le(src: &[u8]) -> (r: Result<(i32, usize), Error>)
    ensures
        r == if src@.len() < 3 {
            Err::<(i32, usize), Error>(Error::More)
        } else {
            Ok::<(i32, usize), Error>((twos(le_u24(src@), 0x100_0000) as i32, 3))
        },
{
    if src.len() < 3 {
        return Err(Error::More);
    }
    Ok((buf_to_i32_trim(src), 3))
}

/// The first four bytes of `src` as a little-endian integer in two's
/// complement, and the four bytes that it takes.
pub fn read_i32_le(src: &[u8]) -> (r: Result<(i32, usize), Error>)
    ensures
        r == if src@.len() < 4 {
            Err::<(i32, usize), Error>(Error::More)
        } else {
            Ok::<(i32, usize), Error>((twos(le_u32(src@), 0x1_0000_0000) as i32, 4))
        },
{
    if src.len() < 4 {
        return Err(Error::More);
    }
    Ok((buf_to_i32(src), 4))
}

/// The first eight bytes of `src` as a little-endian integer in two's
/// complement, and the eight bytes that it takes.
pub fn read_i64_le(src: &[u8]) -> (r: Result<(i64, usize), Error>)
    ensures
        r == if src@.len() < 8 {
            Err::<(i64, usize), Error>(Error::More)
        } else {
            Ok::<(i64, usize), Error>((twos(le_u64(src@), 0x1_0000_0000_0000_0000) as i64, 8))
        },
{
    if src.len() < 8 {
        return Err(Error::More);
    }
    Ok((buf_to_i64(src), 8))
}

/// The first eight bytes of `src` as a little-endian unsigned integer, and
/// the eight bytes that it takes.
pub fn read_u64_le(src: &[u8]) -> (r: Result<(u64, usize), Error>)
    ensures
        r == if src@.len() < 8 {
            Err::<(u64, usize), Error>(Error::More)
        } else {
            Ok::<(u64, usize), Error>((le_u64(src@) as u64, 8))
        },
{
    if src.len() < 8 {
        return Err(Error::More);
    }
    Ok((buf_to_u64(src), 8))
}

/// The top two bits of a byte are its quotient by 64, the low six bits the
/// remainder.
pub proof fn lemma_byte_split(b: u8)
    ensures
        b >> 6 == b / 0x40,
        b & 0x3f == b % 0x40,
{
    assert(b >> 6 == b / 0x40 && b & 0x3f == b % 0x40) by (bit_vector);
}

/// A byte read as an eight-bit integer in two's complement.
pub fn byte_to_i8(b: u8) -> (r: i8)
    ensures
        r == twos(b as int, 0x100),
{
    assert((b < 128 ==> b as i8 == b) && (b >= 128 ==> b as i8 == b - 256)) by (bit_vector);
    b as i8
}

/// An unsigned word read as a sixty-four-bit integer in two's complement.
pub fn word_to_i64(w: u64) -> (r: i64)
    ensures
        r == twos(w as int, 0x1_0000_0000_0000_0000),
{
    assert((w < 0x8000_0000_0000_0000 ==> w as i64 == w) && (w >= 0x8000_0000_0000_0000 ==> w as i64
        == w - 0x1_0000_0000_0000_0000)) by (bit_vector);
    w as i64
}

/// The smaller of two values: `rhs` where `lhs` is greater, else `lhs`.
pub fn min<T: PartialOrd + Copy>(lhs: T, rhs: T) -> (r: T)
    ensures
        T::obeys_partial_cmp_spec() ==> r == if lhs.partial_cmp_spec(&rhs) == Some(
            Ordering::Greater,
        ) {
            rhs
        } else {
            lhs
        },
{
    if lhs > rhs {
        rhs
    } else {
        lhs
    }
}

impl Shift for u8 {
    open spec fn wire_len(v: u8) -> nat {
        1
    }

    fn shift(&self) -> (n: usize) {
        assert(u8::wire_len(*self) == 1);
        1
    }
}

impl Shift for u32 {
    open spec fn wire_len(v: u32) -> nat {
        4
    }

    fn shift(&self) -> (n: usize) {
        4
    }
}

impl FromBuf for u8 {
    open spec fn decode(src: Seq<u8>) -> Result<u8, Error> {
        if src.len() < 1 {
            Err(Error::More)
        } else {
            Ok(src[0])
        }
    }

    proof fn lemma_decode_fits(src: Seq<u8>) {
    }

    proof fn lemma_decode_prefix(src: Seq<u8>, n: int) {
    }

    proof fn lemma_decode_short(src: Seq<u8>) {
    }

    fn from_buf(src: &[u8]) -> (r: Result<u8, Error>) {
        if src.len() < 1 {
            return Err(Error::More);
        }
        Ok(src[0])
    }
}

impl FromBuf for u32 {
    open spec fn decode(src: Seq<u8>) -> Result<u32, Error> {
        if src.len() < 4 {
            Err(Error::More)
        } else {
            Ok(le_u32(src) as u32)
        }
    }

    proof fn lemma_decode_fits(src: Seq<u8>) {
    }

    proof fn lemma_decode_prefix(src: Seq<u8>, n: int) {
    }

    proof fn lemma_decode_short(src: Seq<u8>) {
    }

    fn from_buf(src: &[u8]) -> (r: Result<u32, Error>) {
        if src.len() < 4 {
            return Err(Error::More);
        }
        Ok(buf_to_u32(src))
    }
}

impl Settled for u8 {
    proof fn lemma_decode_extend(src: Seq<u8>, more: Seq<u8>) {
    }
}

impl Settled for u32 {
    proof fn lemma_decode_extend(src: Seq<u8>, more: Seq<u8>) {
    }
}

} // verus!
