//! The expiry that may stand before a record, and the clock it is held against.

use crate::codec::string::{or_else, RedisString};
use crate::com::{le_u32, le_u64, read_i32_le, read_i64_le, twos, views, Error, FromBuf, Shift};
use crate::consts::{REDIS_RDB_OPCODE_EXPIRETIME, REDIS_RDB_OPCODE_EXPIRETIME_MS};
use crate::decimal::{decimal, decimal_bytes};
use crate::fmt::{RedisFmt, RedisFmtView};
use std::time::{Duration, SystemTime, UNIX_EPOCH};
use vstd::prelude::*;

verus! {

/// A point of the system clock.
#[verifier::external_type_specification]
#[verifier::external_body]
pub struct ExSystemTime(SystemTime);

/// `std::time::SystemTime::now`: the system clock as it stands. Nothing is
/// promised of the reading.
#[verifier::external_body]
fn system_time_now() -> SystemTime {
    SystemTime::now()
}

/// `std::time::SystemTime::duration_since`, asked for the time since the Unix
/// epoch: nothing where the clock stands before the epoch.
#[verifier::external_body]
fn since_epoch(t: &SystemTime) -> Option<Duration> {
    t.duration_since(UNIX_EPOCH).ok()
}

/// `std::time::Duration::as_millis`: the whole milliseconds of a duration.
#[verifier::external_body]
fn whole_millis(d: &Duration) -> u128 {
    d.as_millis()
}

/// Milliseconds since the Unix epoch by the system clock, zero where the
/// clock stands before the epoch.
pub(crate) fn unix_millis() -> u128 {
    match since_epoch(&system_time_now()) {
        Some(d) => whole_millis(&d),
        None => 0,
    }
}

/// Whole seconds in `millis` milliseconds, held to what a `u64` can take.
pub fn whole_secs(millis: u128) -> (r: u64)
    ensures
        r == if millis / 1000 > u64::MAX {
            u64::MAX as int
        } else {
            millis as int / 1000
        },
{
    let secs = millis / 1000;
    if secs > u64::MAX as u128 {
        u64::MAX
    } else {
        secs as u64
    }
}

/// When a record expires: at a time in milliseconds or in seconds since the
/// Unix epoch, or never.
#[derive(Copy, Clone, Debug, PartialEq, Eq)]
pub enum ExpireTime {
    Ms(i64),
    Sec(i32),
    Never,
}

impl View for ExpireTime {
    type V = ExpireTime;

    open spec fn view(&self) -> ExpireTime {
        *self
    }
}

impl Shift for ExpireTime {
    open spec fn wire_len(v: ExpireTime) -> nat {
        match v {
            ExpireTime::Ms(_) => 9,
            ExpireTime::Sec(_) => 5,
            ExpireTime::Never => 0,
        }
    }

    fn shift(&self) -> (n: usize) {
        match self {
            ExpireTime::Ms(_) => 8 + 1,
            ExpireTime::Sec(_) => 4 + 1,
            _ => 0,
        }
    }
}

impl ExpireTime {
    /// An expiry in milliseconds: the byte `0xFC`, then eight bytes in
    /// little-endian two's complement.
    pub open spec fn decode_ms(src: Seq<u8>) -> Result<ExpireTime, Error> {
        if src.len() < 1 || src[0] != 0xFC {
            Err(Error::Other)
        } else if src.len() < 9 {
            Err(Error::More)
        } else {
            Ok(ExpireTime::Ms(twos(le_u64(src.skip(1)), 0x1_0000_0000_0000_0000) as i64))
        }
    }

    /// An expiry in seconds: the byte `0xFD`, then four bytes in
    /// little-endian two's complement.
    pub open spec fn decode_sec(src: Seq<u8>) -> Result<ExpireTime, Error> {
        if src.len() < 1 || src[0] != 0xFD {
            Err(Error::Other)
        } else if src.len() < 5 {
            Err(Error::More)
        } else {
            Ok(ExpireTime::Sec(twos(le_u32(src.skip(1)), 0x1_0000_0000) as i32))
        }
    }

    /// Whether the expiry lies strictly behind the instant `now` seconds
    /// after the epoch.
    pub open spec fn is_due_after(self, now: int) -> bool {
        match self {
            ExpireTime::Ms(ms) => ms > now * 1000,
            ExpireTime::Sec(sec) => sec > now,
            ExpireTime::Never => false,
        }
    }

    /// The command that sets the expiry on `key`, by its absolute time, with
    /// the sentinel behind it.
    pub open spec fn command(self, key: Seq<u8>) -> Seq<RedisFmtView> {
        match self {
            ExpireTime::Ms(ms) => seq![
                RedisFmtView::Cmd("PEXPIREAT"@),
                RedisFmtView::Raw(key),
                RedisFmtView::Raw(decimal(ms as int)),
                RedisFmtView::CRLF,
            ],
            ExpireTime::Sec(sec) => seq![
                RedisFmtView::Cmd("EXPIREAT"@),
                RedisFmtView::Raw(key),
                RedisFmtView::Raw(decimal(sec as int)),
                RedisFmtView::CRLF,
            ],
            ExpireTime::Never => Seq::empty(),
        }
    }

    /// What the expiry adds to the stream at the instant `now`: its command
    /// where it is still due, else nothing.
    pub open spec fn formatted(self, key: Seq<u8>, now: int) -> Seq<RedisFmtView> {
        if self.is_due_after(now) {
            self.command(key)
        } else {
            Seq::empty()
        }
    }

    /// Writes the command that sets the expiry on `key`, where the expiry is
    /// still due `now` seconds after the epoch. Gives the number of commands
    /// written.
    pub fn fmt_at(self, key: RedisString, now: u64, buf: &mut Vec<RedisFmt>) -> (n: usize)
        ensures
            views(final(buf)@) == views(old(buf)@) + self.formatted(key@.bytes(), now as int),
            n == if self.is_due_after(now as int) {
                1int
            } else {
                0int
            },
    {
        let ghost before = views(buf@);
        match self {
            ExpireTime::Ms(ms) => {
                if (ms as i128) <= (now as i128) * 1000 {
                    assert(views(buf@) =~= before + Seq::<RedisFmtView>::empty());
                    return 0;
                }
                buf.push(RedisFmt::Cmd("PEXPIREAT"));
                buf.push(RedisFmt::Raw(key.into_data()));
                buf.push(RedisFmt::Raw(decimal_bytes(ms)));
                buf.push(RedisFmt::CRLF);
                assert(views(buf@) =~= before + self.command(key@.bytes()));
                1
            },
            ExpireTime::Sec(sec) => {
                if (sec as i128) <= (now as i128) {
                    assert(views(buf@) =~= before + Seq::<RedisFmtView>::empty());
                    return 0;
                }
                buf.push(RedisFmt::Cmd("EXPIREAT"));
                buf.push(RedisFmt::Raw(key.into_data()));
                buf.push(RedisFmt::Raw(decimal_bytes(sec as i64)));
                buf.push(RedisFmt::CRLF);
                assert(views(buf@) =~= before + self.command(key@.bytes()));
                1
            },
            ExpireTime::Never => {
                assert(views(buf@) =~= before + Seq::<RedisFmtView>::empty());
                0
            },
        }
    }

    /// Writes the command that sets the expiry on `key`, where the expiry is
    /// still due by the system clock: what `fmt_at` writes for the seconds
    /// that the clock counts since the epoch. The clock never counts below
    /// zero, so an expiry that is not due at the epoch is not written
    /// whatever the clock reads.
    pub fn fmt(self, key: RedisString, buf: &mut Vec<RedisFmt>) -> (n: usize)
        ensures
            exists|now: int|
                0 <= now <= u64::MAX && views(final(buf)@) == views(old(buf)@)
                    + #[trigger] self.formatted(key@.bytes(), now) && n == if self.is_due_after(
                    now,
                ) {
                    1int
                } else {
                    0int
                },
            !self.is_due_after(0) ==> views(final(buf)@) == views(old(buf)@) && n == 0,
    {
        let now = whole_secs(unix_millis());
        let ghost before = views(buf@);
        let n = self.fmt_at(key, now, buf);
        assert(!self.is_due_after(0) ==> views(buf@) =~= before);
        n
    }

    /// The expiry in milliseconds since the Unix epoch.
    pub open spec fn deadline_millis(self) -> int {
        match self {
            ExpireTime::Ms(ms) => ms as int,
            ExpireTime::Sec(sec) => sec * 1000,
            ExpireTime::Never => 0,
        }
    }

    /// Whether the expiry is not yet past at the instant `now` milliseconds
    /// after the epoch.
    pub open spec fn is_ahead_of(self, now: int) -> bool {
        self != ExpireTime::Never && now <= self.deadline_millis()
    }

    /// The time left until the expiry at the instant `now` milliseconds after
    /// the epoch, as an option of the command `SET`: `PX` and the milliseconds
    /// left, or `EX` and the whole seconds left.
    pub open spec fn remaining(self, now: int) -> Seq<u8> {
        match self {
            ExpireTime::Ms(ms) => seq![0x50u8, 0x58, 0x20] + decimal(ms - now),
            ExpireTime::Sec(sec) => seq![0x45u8, 0x58, 0x20] + decimal((sec * 1000 - now) / 1000),
            ExpireTime::Never => Seq::empty(),
        }
    }

    /// What is written of the time left at the instant `now` milliseconds
    /// after the epoch: the time left where the expiry is not yet past, and
    /// nothing where it is past or where there is no expiry.
    pub open spec fn time_left(self, now: int) -> Seq<u8> {
        if self.is_ahead_of(now) {
            self.remaining(now)
        } else {
            Seq::empty()
        }
    }

    /// Appends the time left until the expiry, `now` milliseconds after the
    /// epoch. The expiry must not be past.
    pub fn expire_str_at(&self, now: u64, buf: &mut Vec<u8>)
        requires
            *self != ExpireTime::Never ==> self.is_ahead_of(now as int),
        ensures
            final(buf)@ == old(buf)@ + self.remaining(now as int),
    {
        let ghost before = buf@;
        match self {
            ExpireTime::Ms(iv) => {
                let mut left = decimal_bytes(*iv - now as i64);
                buf.push(0x50);
                buf.push(0x58);
                buf.push(0x20);
                buf.append(&mut left);
                assert(buf@ =~= before + self.remaining(now as int));
            },
            ExpireTime::Sec(iv) => {
                let mut left = decimal_bytes((*iv as i64 * 1000 - now as i64) / 1000);
                buf.push(0x45);
                buf.push(0x58);
                buf.push(0x20);
                buf.append(&mut left);
                assert(buf@ =~= before + self.remaining(now as int));
            },
            ExpireTime::Never => {
                assert(buf@ =~= before + Seq::<u8>::empty());
            },
        }
    }

    /// Appends the time left until the expiry by the system clock: what
    /// `time_left` gives for the milliseconds that the clock counts since the
    /// epoch. The clock never counts below zero, so without an expiry, and
    /// with one before the epoch, `buf` stays as it was whatever the clock
    /// reads.
    pub fn expire_str(&self, buf: &mut Vec<u8>)
        ensures
            exists|now: int|
                0 <= now <= u128::MAX && final(buf)@ == old(buf)@ + #[trigger] self.time_left(
                    now,
                ),
            (*self == ExpireTime::Never || self.deadline_millis() < 0) ==> final(buf)@ == old(
                buf,
            )@,
    {
        let now = unix_millis();
        let ahead = match self {
            ExpireTime::Ms(iv) => *iv >= 0 && now <= *iv as u128,
            ExpireTime::Sec(iv) => *iv >= 0 && now <= (*iv as u128) * 1000,
            ExpireTime::Never => false,
        };
        assert(ahead == self.is_ahead_of(now as int));
        if ahead {
            self.expire_str_at(now as u64, buf);
        }
        assert(buf@ =~= old(buf)@ + self.time_left(now as int));
    }

    /// Decodes an expiry in milliseconds.
    pub fn expire_in_ms(src: &[u8]) -> (r: Result<ExpireTime, Error>)
        ensures
            r == ExpireTime::decode_ms(src@),
    {
        if src.len() < 1 || src[0] != REDIS_RDB_OPCODE_EXPIRETIME_MS {
            return Err(Error::Other);
        }
        match read_i64_le(&src[1..src.len()]) {
            Ok((ms, _)) => Ok(ExpireTime::Ms(ms)),
            Err(e) => Err(e),
        }
    }

    /// Decodes an expiry in seconds.
    pub fn expire_in_sec(src: &[u8]) -> (r: Result<ExpireTime, Error>)
        ensures
            r == ExpireTime::decode_sec(src@),
    {
        if src.len() < 1 || src[0] != REDIS_RDB_OPCODE_EXPIRETIME {
            return Err(Error::Other);
        }
        match read_i32_le(&src[1..src.len()]) {
            Ok((sec, _)) => Ok(ExpireTime::Sec(sec)),
            Err(e) => Err(e),
        }
    }
}

impl ExpireTime {
    /// Bytes added behind input that holds a byte do not change what is
    /// decoded in the place of an expiry.
    pub proof fn lemma_decode_extend(src: Seq<u8>, more: Seq<u8>)
        requires
            Self::decode(src) is Ok,
            src.len() >= 1,
        ensures
            Self::decode(src + more) == Self::decode(src),
    {
        assert((src + more).skip(1) =~= src.skip(1) + more);
        if src[0] == 0xFC {
            assert((src + more).skip(1).skip(4) =~= src.skip(1).skip(4) + more);
        }
    }
}

impl FromBuf for ExpireTime {
    /// An expiry in milliseconds or in seconds where its opcode stands at the
    /// front. Otherwise there is none, which takes no byte.
    open spec fn decode(src: Seq<u8>) -> Result<ExpireTime, Error> {
        or_else(
            ExpireTime::decode_ms(src),
            or_else(ExpireTime::decode_sec(src), Ok(ExpireTime::Never)),
        )
    }

    proof fn lemma_decode_fits(src: Seq<u8>) {
    }

    proof fn lemma_decode_prefix(src: Seq<u8>, n: int) {
        if n >= 1 {
            assert(src.take(n).skip(1) =~= src.skip(1).take(n - 1));
            if src[0] == 0xFC {
                assert(src.take(n).skip(1).skip(4) =~= src.skip(1).skip(4).take(n - 5));
            }
        }
    }

    proof fn lemma_decode_short(src: Seq<u8>) {
    }

    fn from_buf(src: &[u8]) -> (r: Result<ExpireTime, Error>) {
        match ExpireTime::expire_in_ms(src) {
            Ok(lp) => return Ok(lp),
            Err(Error::Other) => {},
            Err(err) => return Err(err),
        }
        match ExpireTime::expire_in_sec(src) {
            Ok(lp) => return Ok(lp),
            Err(Error::Other) => {},
            Err(err) => return Err(err),
        }
        Ok(ExpireTime::Never)
    }
}

} // verus!
