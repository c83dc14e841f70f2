//! The variable-width length header.

use crate::com::{
    be_u16, be_u32, lemma_byte_split, read_u16_be, read_u32_be, Error, FromBuf, Settled, Shift,
};
use crate::consts::{REDIS_RDB_14BITLEN, REDIS_RDB_32BITLEN, REDIS_RDB_6BITLEN};
use vstd::prelude::*;

verus! {

/// A length, kept together with the width of the header that carried it:
/// one, two or five bytes.
#[derive(Debug, Clone, Copy, PartialEq, Eq)]
pub enum Length {
    Small(u8),
    Normal(u16),
    Large(u32),
}

impl View for Length {
    type V = Length;

    open spec fn view(&self) -> Length {
        *self
    }
}

impl Length {
    /// The number that the header carries.
    pub open spec fn value(self) -> nat {
        match self {
            Length::Small(v) => v as nat,
            Length::Normal(v) => v as nat,
            Length::Large(v) => v as nat,
        }
    }

    /// The number lies within the bits that its header has room for.
    pub open spec fn wf(self) -> bool {
        match self {
            Length::Small(v) => v < 0x40,
            Length::Normal(v) => v < 0x4000,
            Length::Large(v) => v < 0x4000_0000,
        }
    }

    /// A header that must be a length: one that is none is malformed input.
    pub open spec fn required(r: Result<Length, Error>) -> Result<Length, Error> {
        match r {
            Err(Error::Other) => Err(Error::Faild("not a length")),
            _ => r,
        }
    }

    /// Decodes a header where only a length may stand.
    pub fn from_buf_required(src: &[u8]) -> (r: Result<Length, Error>)
        ensures
            r == Length::required(Length::decode(src@)),
            r matches Ok(v) ==> v.wf(),
    {
        match Length::from_buf(src) {
            Err(Error::Other) => Err(Error::Faild("not a length")),
            other => other,
        }
    }

    /// The number that the header carries.
    pub fn length(&self) -> (n: usize)
        ensures
            n == self.value(),
    {
        match self {
            Length::Small(val) => *val as usize,
            Length::Normal(val) => *val as usize,
            Length::Large(val) => *val as usize,
        }
    }
}

impl Shift for Length {
    open spec fn wire_len(v: Length) -> nat {
        match v {
            Length::Small(_) => 1,
            Length::Normal(_) => 2,
            Length::Large(_) => 5,
        }
    }

    fn shift(&self) -> (n: usize) {
        match self {
            Length::Small(_) => 1,
            Length::Normal(_) => 2,
            Length::Large(_) => 5,
        }
    }
}

impl FromBuf for Length {
    /// The top two bits of the first byte choose the form: `00` keeps the
    /// length in the low six bits, `01` in fourteen bits over two bytes, `10`
    /// in the low thirty bits of the big-endian word behind the first byte.
    /// `11` is no length.
    open spec fn decode(src: Seq<u8>) -> Result<Length, Error> {
        if src.len() < 1 {
            Err(Error::More)
        } else if src[0] / 0x40 == 0 {
            Ok(Length::Small(src[0] % 0x40))
        } else if src[0] / 0x40 == 1 {
            if src.len() < 2 {
                Err(Error::More)
            } else {
                Ok(Length::Normal((be_u16(src) % 0x4000) as u16))
            }
        } else if src[0] / 0x40 == 2 {
            if src.len() < 5 {
                Err(Error::More)
            } else {
                Ok(Length::Large((be_u32(src.skip(1)) % 0x4000_0000) as u32))
            }
        } else {
            Err(Error::Other)
        }
    }

    proof fn lemma_decode_fits(src: Seq<u8>) {
    }

    proof fn lemma_decode_prefix(src: Seq<u8>, n: int) {
        if src[0] / 0x40 == 2 {
            assert(src.take(n).skip(1) =~= src.skip(1).take(n - 1));
        }
    }

    proof fn lemma_decode_short(src: Seq<u8>) {
    }

    fn from_buf(src: &[u8]) -> (r: Result<Length, Error>)
        ensures
            r matches Ok(v) ==> v.wf(),
    {
        if src.len() < 1 {
            return Err(Error::More);
        }
        let first = src[0];
        let ltype = first >> 6;
        proof {
            lemma_byte_split(first);
        }
        if ltype == REDIS_RDB_6BITLEN {
            Ok(Length::Small(first & 0x3f))
        } else if ltype == REDIS_RDB_14BITLEN {
            let (value, _) = match read_u16_be(src) {
                Ok(read) => read,
                Err(e) => return Err(e),
            };
            assert(value & 0x3fff == value % 0x4000) by (bit_vector);
            Ok(Length::Normal(value & 0x3fff))
        } else if ltype == REDIS_RDB_32BITLEN {
            let (value, _) = match read_u32_be(&src[1..src.len()]) {
                Ok(read) => read,
                Err(e) => return Err(e),
            };
            assert(value & 0x3fff_ffff == value % 0x4000_0000) by (bit_vector);
            Ok(Length::Large(value & 0x3fff_ffff))
        } else {
            Err(Error::Other)
        }
    }
}

impl Settled for Length {
    proof fn lemma_decode_extend(src: Seq<u8>, more: Seq<u8>) {
        if src[0] / 0x40 == 2 {
            assert((src + more).skip(1) =~= src.skip(1) + more);
        }
    }
}

} // verus!
