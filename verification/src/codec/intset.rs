//! The intset: a packed array of integers of one width, which travels as the
//! bytes of a string.

use crate::com::{
    buf_to_i16, buf_to_i32, buf_to_u32, buf_to_u64, le_u16, le_u32, le_u64, twos, word_to_i64,
    Error, FromBuf, Settled, Shift,
};
use vstd::prelude::*;

verus! {

/// The width of the integers of an intset: two, four or eight bytes.
#[derive(Debug, Clone, Copy, PartialEq, Eq)]
pub enum IntSetEncoding {
    Normal,
    Large,
    ExLarge,
}

impl View for IntSetEncoding {
    type V = IntSetEncoding;

    open spec fn view(&self) -> IntSetEncoding {
        *self
    }
}

impl IntSetEncoding {
    /// Bytes of one integer.
    pub open spec fn width(self) -> nat {
        match self {
            IntSetEncoding::Normal => 2,
            IntSetEncoding::Large => 4,
            IntSetEncoding::ExLarge => 8,
        }
    }

    /// Whether `v` is a number that an integer of this width can hold.
    pub open spec fn holds(self, v: int) -> bool {
        match self {
            IntSetEncoding::Normal => -0x8000 <= v < 0x8000,
            IntSetEncoding::Large => -0x8000_0000 <= v < 0x8000_0000,
            IntSetEncoding::ExLarge => -0x8000_0000_0000_0000 <= v < 0x8000_0000_0000_0000,
        }
    }

    /// Bytes of one integer.
    pub fn encoding(&self) -> (n: usize)
        ensures
            n == self.width(),
    {
        match self {
            IntSetEncoding::Normal => 2,
            IntSetEncoding::Large => 4,
            IntSetEncoding::ExLarge => 8,
        }
    }
}

impl Shift for IntSetEncoding {
    open spec fn wire_len(v: IntSetEncoding) -> nat {
        4
    }

    fn shift(&self) -> (n: usize) {
        4
    }
}

impl FromBuf for IntSetEncoding {
    /// Four bytes, little-endian, that hold 2, 4 or 8.
    open spec fn decode(src: Seq<u8>) -> Result<IntSetEncoding, Error> {
        if src.len() < 4 {
            Err(Error::More)
        } else if le_u32(src) == 2 {
            Ok(IntSetEncoding::Normal)
        } else if le_u32(src) == 4 {
            Ok(IntSetEncoding::Large)
        } else if le_u32(src) == 8 {
            Ok(IntSetEncoding::ExLarge)
        } else {
            Err(Error::Faild("intset encoding"))
        }
    }

    proof fn lemma_decode_fits(src: Seq<u8>) {
    }

    proof fn lemma_decode_prefix(src: Seq<u8>, n: int) {
    }

    proof fn lemma_decode_short(src: Seq<u8>) {
    }

    fn from_buf(src: &[u8]) -> (r: Result<IntSetEncoding, Error>) {
        if src.len() < 4 {
            return Err(Error::More);
        }
        let width = buf_to_u32(src);
        if width == 2 {
            Ok(IntSetEncoding::Normal)
        } else if width == 4 {
            Ok(IntSetEncoding::Large)
        } else if width == 8 {
            Ok(IntSetEncoding::ExLarge)
        } else {
            Err(Error::Faild("intset encoding"))
        }
    }
}

/// Number of integers, as the header of an intset gives it.
#[derive(Debug, Clone, Copy, PartialEq, Eq)]
pub struct IntSetCount(pub u32);

impl View for IntSetCount {
    type V = IntSetCount;

    open spec fn view(&self) -> IntSetCount {
        *self
    }
}

impl Shift for IntSetCount {
    open spec fn wire_len(v: IntSetCount) -> nat {
        4
    }

    fn shift(&self) -> (n: usize) {
        4
    }
}

impl FromBuf for IntSetCount {
    /// Four bytes, little-endian.
    open spec fn decode(src: Seq<u8>) -> Result<IntSetCount, Error> {
        if src.len() < 4 {
            Err(Error::More)
        } else {
            Ok(IntSetCount(le_u32(src) as u32))
        }
    }

    proof fn lemma_decode_fits(src: Seq<u8>) {
    }

    proof fn lemma_decode_prefix(src: Seq<u8>, n: int) {
    }

    proof fn lemma_decode_short(src: Seq<u8>) {
    }

    fn from_buf(src: &[u8]) -> (r: Result<IntSetCount, Error>) {
        if src.len() < 4 {
            return Err(Error::More);
        }
        Ok(IntSetCount(buf_to_u32(src)))
    }
}

/// One integer of an intset, at the width it was stored with.
#[derive(Debug, Clone, Copy, PartialEq, Eq)]
pub enum IntSetValue {
    Normal(i16),
    Large(i32),
    ExLarge(i64),
}

impl IntSetValue {
    /// The integer, whatever its stored width.
    pub open spec fn number(self) -> int {
        match self {
            IntSetValue::Normal(v) => v as int,
            IntSetValue::Large(v) => v as int,
            IntSetValue::ExLarge(v) => v as int,
        }
    }

    /// The integer that the first bytes of `src` hold at the width of
    /// `encoding`, in little-endian two's complement.
    pub open spec fn decode_as(encoding: IntSetEncoding, src: Seq<u8>) -> IntSetValue {
        match encoding {
            IntSetEncoding::Normal => IntSetValue::Normal(twos(le_u16(src), 0x1_0000) as i16),
            IntSetEncoding::Large => IntSetValue::Large(twos(le_u32(src), 0x1_0000_0000) as i32),
            IntSetEncoding::ExLarge => IntSetValue::ExLarge(
                twos(le_u64(src), 0x1_0000_0000_0000_0000) as i64,
            ),
        }
    }

    /// Reads one integer at the width of `encoding`.
    pub fn read(encoding: IntSetEncoding, src: &[u8]) -> (r: IntSetValue)
        requires
            src@.len() >= encoding.width(),
        ensures
            r == IntSetValue::decode_as(encoding, src@),
            encoding.holds(r.number()),
    {
        match encoding {
            IntSetEncoding::Normal => IntSetValue::Normal(buf_to_i16(src)),
            IntSetEncoding::Large => IntSetValue::Large(buf_to_i32(src)),
            IntSetEncoding::ExLarge => IntSetValue::ExLarge(word_to_i64(buf_to_u64(src))),
        }
    }

    /// The integer widened to sixty-four bits, with its sign.
    pub fn widen(&self) -> (r: i64)
        ensures
            r == self.number(),
    {
        match self {
            IntSetValue::Normal(v) => *v as i64,
            IntSetValue::Large(v) => *v as i64,
            IntSetValue::ExLarge(v) => *v,
        }
    }
}

/// An intset: its two header fields and its integers, widened.
#[derive(Debug, Clone, PartialEq, Eq)]
pub struct IntSet {
    pub encoding: IntSetEncoding,
    pub count: IntSetCount,
    pub ints: Vec<i64>,
}

/// What an [`IntSet`] holds.
pub struct IntSetView {
    pub encoding: IntSetEncoding,
    pub count: IntSetCount,
    pub ints: Seq<i64>,
}

impl View for IntSet {
    type V = IntSetView;

    open spec fn view(&self) -> IntSetView {
        IntSetView { encoding: self.encoding, count: self.count, ints: self.ints@ }
    }
}

impl IntSetView {
    /// The header counts the integers, and each is a number that the width of
    /// the set can hold.
    pub open spec fn wf(self) -> bool {
        &&& self.ints.len() == self.count.0
        &&& forall|i: int|
            0 <= i < self.ints.len() ==> self.encoding.holds(#[trigger] self.ints[i] as int)
    }

    /// The `i`-th integer of a set of width `encoding` whose bytes are `src`.
    pub open spec fn element(src: Seq<u8>, encoding: IntSetEncoding, i: int) -> i64 {
        IntSetValue::decode_as(encoding, src.skip(8 + i * encoding.width())).number() as i64
    }
}

/// The `i`-th of `count` integers of `width` bytes ends within their run.
pub proof fn lemma_element_within(width: int, count: int, i: int)
    requires
        0 <= i < count,
        0 <= width,
    ensures
        0 <= i * width,
        i * width + width <= width * count,
        (i + 1) * width == i * width + width,
{
    assert(0 <= i * width && i * width + width <= width * count && (i + 1) * width == i * width
        + width) by (nonlinear_arith)
        requires
            0 <= i < count,
            0 <= width,
    ;
}

/// An integer of an intset depends on its own bytes alone.
pub proof fn lemma_element_prefix(
    src: Seq<u8>,
    encoding: IntSetEncoding,
    count: nat,
    i: int,
    n: int,
)
    requires
        0 <= i < count,
        8 + encoding.width() * count <= n <= src.len(),
    ensures
        IntSetView::element(src.take(n), encoding, i) == IntSetView::element(src, encoding, i),
{
    lemma_element_within(encoding.width() as int, count as int, i);
    let at = 8 + i * encoding.width();
    assert(src.take(n).skip(at) =~= src.skip(at).take(n - at));
    if encoding == IntSetEncoding::ExLarge {
        assert(src.take(n).skip(at).skip(4) =~= src.skip(at).skip(4).take(n - at - 4));
    }
}

impl Shift for IntSet {
    /// The two header fields and the integers.
    open spec fn wire_len(v: IntSetView) -> nat {
        8 + v.encoding.width() * v.count.0 as nat
    }

    fn shift(&self) -> (n: usize) {
        proof {
            assert(self.encoding.width() * self.count.0 as nat >= 0) by (nonlinear_arith);
        }
        self.encoding.shift() + self.count.shift() + self.encoding.encoding() * (
        self.count.0 as usize)
    }
}

impl FromBuf for IntSet {
    /// The width of the integers and their number, four bytes each and
    /// little-endian; then the integers, in little-endian two's complement.
    open spec fn decode(src: Seq<u8>) -> Result<IntSetView, Error> {
        match IntSetEncoding::decode(src) {
            Err(e) => Err(e),
            Ok(encoding) => match IntSetCount::decode(src.skip(4)) {
                Err(e) => Err(e),
                Ok(count) => if src.len() < 8 + encoding.width() * count.0 as nat {
                    Err(Error::More)
                } else {
                    Ok(
                        IntSetView {
                            encoding,
                            count,
                            ints: Seq::new(
                                count.0 as nat,
                                |i: int| IntSetView::element(src, encoding, i),
                            ),
                        },
                    )
                },
            },
        }
    }

    proof fn lemma_decode_fits(src: Seq<u8>) {
    }

    proof fn lemma_decode_prefix(src: Seq<u8>, n: int) {
        let v = Self::decode(src)->Ok_0;
        assert(v.encoding.width() * v.count.0 as nat >= 0) by (nonlinear_arith);
        assert(src.take(n).skip(4) =~= src.skip(4).take(n - 4));
        let cut = Self::decode(src.take(n))->Ok_0;
        assert forall|i: int| 0 <= i < v.count.0 implies cut.ints[i] == v.ints[i] by {
            lemma_element_prefix(src, v.encoding, v.count.0 as nat, i, n);
        }
        assert(cut.ints =~= v.ints);
    }

    proof fn lemma_decode_short(src: Seq<u8>) {
        let v = Self::decode(src)->Ok_0;
        let n = Self::wire_len(v) - 1;
        assert(v.encoding.width() * v.count.0 as nat >= 0) by (nonlinear_arith);
        assert(src.take(n).skip(4) =~= src.skip(4).take(n - 4));
    }

    fn from_buf(src: &[u8]) -> (r: Result<IntSet, Error>)
        ensures
            r matches Ok(v) ==> v@.wf(),
    {
        let encoding = match IntSetEncoding::from_buf(src) {
            Ok(encoding) => encoding,
            Err(e) => return Err(e),
        };
        let count = match IntSetCount::from_buf(&src[encoding.shift()..src.len()]) {
            Ok(count) => count,
            Err(e) => return Err(e),
        };
        let e = encoding.encoding();
        let total: usize = count.0 as usize;
        proof {
            assert(0 <= e * total <= 8 * 0xffff_ffff) by (nonlinear_arith)
                requires
                    0 <= e <= 8,
                    0 <= total <= 0xffff_ffff,
            ;
        }
        let needed: u64 = 8 + (e as u64) * (total as u64);
        if (src.len() as u64) < needed {
            return Err(Error::More);
        }
        let mut ints: Vec<i64> = Vec::new();
        let mut pos: usize = encoding.shift() + count.shift();
        let mut i: usize = 0;
        while i < total
            invariant
                i <= total,
                total == count.0,
                e == encoding.width(),
                8 + e * total <= src@.len() <= usize::MAX,
                pos == 8 + i * e,
                ints@.len() == i,
                forall|j: int|
                    0 <= j < i ==> #[trigger] ints@[j] == IntSetView::element(src@, encoding, j),
                forall|j: int| 0 <= j < i ==> encoding.holds(#[trigger] ints@[j] as int),
            decreases total - i,
        {
            proof {
                lemma_element_within(e as int, total as int, i as int);
            }
            let val = IntSetValue::read(encoding, &src[pos..pos + e]);
            proof {
                let at = 8 + i * encoding.width();
                assert(src@.subrange(pos as int, pos + e) =~= src@.skip(at).take(e as int));
                if encoding == IntSetEncoding::ExLarge {
                    assert(src@.subrange(pos as int, pos + e).skip(4) =~= src@.skip(at).skip(
                        4,
                    ).take(4));
                }
            }
            ints.push(val.widen());
            pos = pos + e;
            i = i + 1;
        }
        assert(ints@ =~= Seq::new(
            count.0 as nat,
            |i: int| IntSetView::element(src@, encoding, i),
        ));
        Ok(IntSet { encoding, count, ints })
    }
}

impl Settled for IntSetEncoding {
    proof fn lemma_decode_extend(src: Seq<u8>, more: Seq<u8>) {
    }
}

impl Settled for IntSetCount {
    proof fn lemma_decode_extend(src: Seq<u8>, more: Seq<u8>) {
    }
}

/// An integer of an intset stays as it is when bytes are added behind the set.
pub proof fn lemma_element_extend(
    src: Seq<u8>,
    encoding: IntSetEncoding,
    count: nat,
    i: int,
    more: Seq<u8>,
)
    requires
        0 <= i < count,
        8 + encoding.width() * count <= src.len(),
    ensures
        IntSetView::element(src + more, encoding, i) == IntSetView::element(src, encoding, i),
{
    lemma_element_within(encoding.width() as int, count as int, i);
    let at = 8 + i * encoding.width();
    assert((src + more).skip(at) =~= src.skip(at) + more);
    if encoding == IntSetEncoding::ExLarge {
        assert((src + more).skip(at).skip(4) =~= src.skip(at).skip(4) + more);
    }
}

impl Settled for IntSet {
    proof fn lemma_decode_extend(src: Seq<u8>, more: Seq<u8>) {
        let v = Self::decode(src)->Ok_0;
        assert(v.encoding.width() * v.count.0 as nat >= 0) by (nonlinear_arith);
        assert((src + more).skip(4) =~= src.skip(4) + more);
        let longer = Self::decode(src + more)->Ok_0;
        assert forall|i: int| 0 <= i < v.count.0 implies longer.ints[i] == v.ints[i] by {
            lemma_element_extend(src, v.encoding, v.count.0 as nat, i, more);
        }
        assert(longer.ints =~= v.ints);
    }
}

} // verus!
