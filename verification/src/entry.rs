//! The entries that the envelope of a snapshot is made of.

use crate::codec::length::Length;
use crate::com::{views, Error, FromBuf, Settled, Shift};
use crate::consts::{
    REDIS_MAGIC_LEN, REDIS_RDB_OPCODE_EOF, REDIS_RDB_OPCODE_SELECTDB, REDIS_VERSION_LEN,
};
use crate::decimal::{is_digit, is_digit_byte};
use crate::fmt::{lemma_scan_append, lemma_split_one, RedisFmt, RedisFmtView, RedisFormat};
use crate::types::data::{record_decoder_applies, RedisData, RedisDataView};
use crate::types::expire::ExpireTime;
use vstd::prelude::*;
use vstd::slice::slice_to_vec;

verus! {

/// One entry of the envelope: the version behind the magic text, the number
/// of a database, a record with its expiry, or the checksum at the end.
#[derive(Debug, Clone, PartialEq, Eq)]
pub enum RdbEntry {
    Version(u32),
    Sector(Length),
    Data { expire: ExpireTime, data: RedisData },
    Crc(Vec<u8>),
}

/// What an [`RdbEntry`] holds.
pub enum RdbEntryView {
    Version(u32),
    Sector(Length),
    Data { expire: ExpireTime, data: RedisDataView },
    Crc(Seq<u8>),
}

impl View for RdbEntry {
    type V = RdbEntryView;

    open spec fn view(&self) -> RdbEntryView {
        match self {
            RdbEntry::Version(v) => RdbEntryView::Version(*v),
            RdbEntry::Sector(l) => RdbEntryView::Sector(*l),
            RdbEntry::Data { expire, data } => RdbEntryView::Data { expire: *expire, data: data@ },
            RdbEntry::Crc(bytes) => RdbEntryView::Crc(bytes@),
        }
    }
}

/// The magic text `REDIS`.
pub open spec fn magic() -> Seq<u8> {
    seq![0x52u8, 0x45, 0x44, 0x49, 0x53]
}

/// The number that four ASCII digits spell.
pub open spec fn version_number(digits: Seq<u8>) -> int {
    (digits[0] - 0x30) * 1000 + (digits[1] - 0x30) * 100 + (digits[2] - 0x30) * 10 + (digits[3]
        - 0x30)
}

impl RdbEntryView {
    /// The header: the magic text and four ASCII digits, the version.
    pub open spec fn decode_header(src: Seq<u8>) -> Result<RdbEntryView, Error> {
        if src.len() < 9 {
            Err(Error::More)
        } else if src.take(5) != magic() || !(forall|i: int| 5 <= i < 9 ==> is_digit(src[i])) {
            Err(Error::Faild("header"))
        } else {
            Ok(RdbEntryView::Version(version_number(src.subrange(5, 9)) as u32))
        }
    }

    /// The choice of a database: the byte `0xFE` and a length header with its
    /// number. Another first byte means that no database follows.
    pub open spec fn decode_sector(src: Seq<u8>) -> Result<RdbEntryView, Error> {
        if src.len() < 1 {
            Err(Error::More)
        } else if src[0] != 0xFE {
            Err(Error::Other)
        } else {
            match Length::required(Length::decode(src.skip(1))) {
                Err(e) => Err(e),
                Ok(length) => Ok(RdbEntryView::Sector(length)),
            }
        }
    }

    /// A record: its expiry, if it has one, then the record itself. The byte
    /// `0xFF` at the front means that no record follows.
    pub open spec fn decode_data(src: Seq<u8>) -> Result<RdbEntryView, Error> {
        if src.len() < 1 {
            Err(Error::More)
        } else if src[0] == 0xFF {
            Err(Error::Other)
        } else {
            match ExpireTime::decode(src) {
                Err(e) => Err(e),
                Ok(expire) => match RedisData::decode(
                    src.skip(ExpireTime::wire_len(expire) as int),
                ) {
                    Err(e) => Err(e),
                    Ok(data) => Ok(RdbEntryView::Data { expire, data }),
                },
            }
        }
    }

    /// The end: the byte `0xFF` and the eight bytes of the checksum, which
    /// are kept as they are.
    pub open spec fn decode_crc(src: Seq<u8>) -> Result<RdbEntryView, Error> {
        if src.len() < 1 {
            Err(Error::More)
        } else if src[0] != 0xFF {
            Err(Error::Faild("end of file"))
        } else if src.len() < 9 {
            Err(Error::More)
        } else {
            Ok(RdbEntryView::Crc(src.subrange(1, 9)))
        }
    }
}

impl RdbEntryView {
    /// Bytes added behind the header do not change it.
    pub proof fn lemma_decode_header_extend(src: Seq<u8>, more: Seq<u8>)
        requires
            Self::decode_header(src) is Ok,
        ensures
            Self::decode_header(src + more) == Self::decode_header(src),
    {
        assert((src + more).take(5) =~= src.take(5));
        assert((src + more).subrange(5, 9) =~= src.subrange(5, 9));
    }

    /// Bytes added behind the choice of a database do not change it, and
    /// where no database follows none follows then.
    pub proof fn lemma_decode_sector_extend(src: Seq<u8>, more: Seq<u8>)
        requires
            Self::decode_sector(src) is Ok || Self::decode_sector(src) == Err::<
                RdbEntryView,
                Error,
            >(Error::Other),
        ensures
            Self::decode_sector(src + more) == Self::decode_sector(src),
    {
        if src[0] == 0xFE {
            Length::lemma_decode_extend(src.skip(1), more);
            assert((src + more).skip(1) =~= src.skip(1) + more);
        }
    }

    /// Bytes added behind a record do not change it, and where no record
    /// follows none follows then.
    pub proof fn lemma_decode_data_extend(src: Seq<u8>, more: Seq<u8>)
        requires
            Self::decode_data(src) is Ok || Self::decode_data(src) == Err::<RdbEntryView, Error>(
                Error::Other,
            ),
        ensures
            Self::decode_data(src + more) == Self::decode_data(src),
    {
        if src[0] != 0xFF {
            let expire = ExpireTime::decode(src)->Ok_0;
            let at = ExpireTime::wire_len(expire) as int;
            ExpireTime::lemma_decode_fits(src);
            ExpireTime::lemma_decode_extend(src, more);
            record_decoder_applies(src.skip(at));
            RedisData::lemma_decode_extend(src.skip(at), more);
            assert((src + more).skip(at) =~= src.skip(at) + more);
        }
    }

    /// Bytes added behind the end of the snapshot do not change it.
    pub proof fn lemma_decode_crc_extend(src: Seq<u8>, more: Seq<u8>)
        requires
            Self::decode_crc(src) is Ok,
        ensures
            Self::decode_crc(src + more) == Self::decode_crc(src),
    {
        assert((src + more).subrange(1, 9) =~= src.subrange(1, 9));
    }
}

impl Shift for RdbEntry {
    /// Nine bytes for the header, the opcode and the length header for a
    /// database, the expiry and the record, the opcode and the checksum.
    open spec fn wire_len(v: RdbEntryView) -> nat {
        match v {
            RdbEntryView::Version(_) => 9,
            RdbEntryView::Sector(length) => 1 + Length::wire_len(length),
            RdbEntryView::Data { expire, data } => ExpireTime::wire_len(expire)
                + RedisData::wire_len(data),
            RdbEntryView::Crc(bytes) => 1 + bytes.len(),
        }
    }

    fn shift(&self) -> (n: usize) {
        match self {
            RdbEntry::Version(_) => REDIS_MAGIC_LEN + REDIS_VERSION_LEN,
            RdbEntry::Sector(length) => 1 + length.shift(),
            RdbEntry::Data { expire, data } => expire.shift() + data.shift(),
            RdbEntry::Crc(bytes) => 1 + bytes.len(),
        }
    }
}

impl RdbEntry {
    /// Decodes the header of a snapshot.
    pub fn header(src: &[u8]) -> (r: Result<RdbEntry, Error>)
        ensures
            r matches Ok(v) ==> RdbEntryView::decode_header(src@) == Ok::<RdbEntryView, Error>(v@),
            r matches Err(e) ==> RdbEntryView::decode_header(src@) == Err::<RdbEntryView, Error>(e),
    {
        if src.len() < REDIS_MAGIC_LEN + REDIS_VERSION_LEN {
            return Err(Error::More);
        }
        if src[0] != 0x52 || src[1] != 0x45 || src[2] != 0x44 || src[3] != 0x49 || src[4] != 0x53 {
            assert(src@.take(5)[0] == src@[0] && src@.take(5)[1] == src@[1] && src@.take(5)[2]
                == src@[2] && src@.take(5)[3] == src@[3] && src@.take(5)[4] == src@[4]);
            return Err(Error::Faild("header"));
        }
        assert(src@.take(5) =~= magic());
        let thousands = src[5];
        let hundreds = src[6];
        let tens = src[7];
        let ones = src[8];
        if !(is_digit_byte(thousands) && is_digit_byte(hundreds) && is_digit_byte(tens)
            && is_digit_byte(ones)) {
            return Err(Error::Faild("header"));
        }
        let version = (thousands - 0x30) as u32 * 1000 + (hundreds - 0x30) as u32 * 100 + (tens
            - 0x30) as u32 * 10 + (ones - 0x30) as u32;
        Ok(RdbEntry::Version(version))
    }

    /// Decodes the choice of a database.
    pub fn sector(src: &[u8]) -> (r: Result<RdbEntry, Error>)
        ensures
            r matches Ok(v) ==> RdbEntryView::decode_sector(src@) == Ok::<RdbEntryView, Error>(v@),
            r matches Err(e) ==> RdbEntryView::decode_sector(src@) == Err::<RdbEntryView, Error>(e),
    {
        if src.len() < 1 {
            return Err(Error::More);
        }
        if src[0] != REDIS_RDB_OPCODE_SELECTDB {
            return Err(Error::Other);
        }
        match Length::from_buf_required(&src[1..src.len()]) {
            Ok(length) => Ok(RdbEntry::Sector(length)),
            Err(e) => Err(e),
        }
    }

    /// Decodes a record with its expiry.
    pub fn data(src: &[u8]) -> (r: Result<RdbEntry, Error>)
        ensures
            r matches Ok(v) ==> RdbEntryView::decode_data(src@) == Ok::<RdbEntryView, Error>(v@),
            r matches Err(e) ==> RdbEntryView::decode_data(src@) == Err::<RdbEntryView, Error>(e),
    {
        if src.len() < 1 {
            return Err(Error::More);
        }
        if src[0] == REDIS_RDB_OPCODE_EOF {
            return Err(Error::Other);
        }
        let expire = match ExpireTime::from_buf(src) {
            Ok(expire) => expire,
            Err(e) => return Err(e),
        };
        proof {
            ExpireTime::lemma_decode_fits(src@);
        }
        let data = match RedisData::from_buf(&src[expire.shift()..src.len()]) {
            Ok(data) => data,
            Err(e) => return Err(e),
        };
        Ok(RdbEntry::Data { expire, data })
    }

    /// Decodes the end of a snapshot.
    pub fn crc(src: &[u8]) -> (r: Result<RdbEntry, Error>)
        ensures
            r matches Ok(v) ==> RdbEntryView::decode_crc(src@) == Ok::<RdbEntryView, Error>(v@),
            r matches Err(e) ==> RdbEntryView::decode_crc(src@) == Err::<RdbEntryView, Error>(e),
    {
        if src.len() < 1 {
            return Err(Error::More);
        }
        if src[0] != REDIS_RDB_OPCODE_EOF {
            return Err(Error::Faild("end of file"));
        }
        if src.len() < 9 {
            return Err(Error::More);
        }
        Ok(RdbEntry::Crc(slice_to_vec(&src[1..9])))
    }
}

impl RedisFormat for RdbEntry {
    /// A record is written as its command and, where its expiry is still
    /// due, the command that sets the expiry. The other entries stand for no
    /// command.
    open spec fn formatted(v: RdbEntryView, now: int) -> Result<Seq<RedisFmtView>, Error> {
        match v {
            RdbEntryView::Data { expire, data } => match RedisData::formatted(data, now) {
                Err(e) => Err(e),
                Ok(out) => Ok(out + expire.formatted(data.key().bytes(), now)),
            },
            _ => Ok(Seq::empty()),
        }
    }

    fn fmt(self, now: u64, buf: &mut Vec<RedisFmt>) -> (r: Result<usize, Error>) {
        let ghost before = views(buf@);
        match self {
            RdbEntry::Data { expire, data } => {
                let key = data.copy_key();
                let ghost first = RedisData::formatted(data@, now as int);
                proof {
                    data@.lemma_command_is_one();
                }
                let count = match data.fmt(now, buf) {
                    Ok(count) => count,
                    Err(e) => return Err(e),
                };
                let more = expire.fmt_at(key, now, buf);
                proof {
                    let out = first->Ok_0;
                    let argv = data@.command()->Ok_0;
                    let tail = expire.formatted(key@.bytes(), now as int);
                    assert(views(buf@) =~= before + (out + tail));
                    lemma_scan_append(out, tail);
                    if expire.is_due_after(now as int) {
                        assert(tail.drop_last().push(RedisFmtView::CRLF) =~= tail);
                        lemma_split_one(tail.drop_last());
                    }
                }
                Ok(count + more)
            },
            _ => {
                assert(views(buf@) =~= before + Seq::<RedisFmtView>::empty());
                Ok(0)
            },
        }
    }
}

} // verus!
