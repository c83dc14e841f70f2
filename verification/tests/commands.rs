use libnewbee::codec::{Length, RedisString, StrInt};
use libnewbee::decimal::{decimal_bytes, is_float_text};
use libnewbee::entry::RdbEntry;
use libnewbee::parser::{advance, Move};
use libnewbee::types::{ExpireTime, RedisData};
use libnewbee::{
    DefaultRdbParser, Error, FromBuf, Group, RedisCmd, RedisFmt, RedisFormat, Shift, State,
};

fn plain(bytes: &[u8]) -> RedisString {
    RedisString::LengthPrefix { len: Length::Small(bytes.len() as u8), data: bytes.to_vec() }
}

fn raw(bytes: &[u8]) -> RedisFmt {
    RedisFmt::Raw(bytes.to_vec())
}

#[test]
fn decimal_text_of_integers() {
    assert_eq!(decimal_bytes(0), b"0".to_vec());
    assert_eq!(decimal_bytes(7), b"7".to_vec());
    assert_eq!(decimal_bytes(10), b"10".to_vec());
    assert_eq!(decimal_bytes(-1), b"-1".to_vec());
    assert_eq!(decimal_bytes(1_000_000), b"1000000".to_vec());
    assert_eq!(decimal_bytes(i64::MAX), b"9223372036854775807".to_vec());
    assert_eq!(decimal_bytes(i64::MIN), b"-9223372036854775808".to_vec());
    for v in [-12345i64, -100, -9, 9, 99, 100, 101, 65535, 4_294_967_296] {
        assert_eq!(decimal_bytes(v), format!("{}", v).into_bytes());
    }
}

#[test]
fn texts_of_floating_point_numbers() {
    for text in [
        "0", "1", "-1", "+1", "1.5", "1.", ".5", "-.5", "1e10", "1E10", "1e+10", "1.5e-3", "007",
        "inf", "-inf", "+Infinity", "INF", "nan", "NaN", "3.14159",
    ] {
        assert!(is_float_text(text.as_bytes()), "{}", text);
        assert!(text.parse::<f64>().is_ok(), "{}", text);
    }
    for text in [
        "", "-", "+", ".", "e5", "1e", "1e+", "1.5.2", "1 ", " 1", "1,5", "0x10", "in", "infinit",
        "nanx", "--1", "1e1.5", "abc", "1f", "-.", "+.e1",
    ] {
        assert!(!is_float_text(text.as_bytes()), "{}", text);
        assert!(text.parse::<f64>().is_err(), "{}", text);
    }
}

#[test]
fn elements_of_the_stream_give_their_bytes() {
    assert_eq!(RedisFmt::Cmd("SET").into_data(), b"SET".to_vec());
    assert_eq!(raw(&[0, 255]).into_data(), vec![0, 255]);
    assert_eq!(RedisFmt::CRLF.into_data(), b"\r\n".to_vec());
    assert!(RedisFmt::CRLF.is_crlf());
    assert!(!RedisFmt::Cmd("SET").is_crlf());
    assert!(!raw(b"\r\n").is_crlf());
    let cmd = RedisCmd(vec![RedisFmt::Cmd("SET"), raw(b"k"), raw(b"v")]);
    assert_eq!(cmd.into_data(), vec![b"SET".to_vec(), b"k".to_vec(), b"v".to_vec()]);
    assert_eq!(RedisCmd(vec![]).into_data(), Vec::<Vec<u8>>::new());
}

#[test]
fn stream_is_cut_at_the_sentinels() {
    let stream = vec![
        RedisFmt::Cmd("SET"),
        raw(b"a"),
        raw(b"b"),
        RedisFmt::CRLF,
        RedisFmt::CRLF,
        RedisFmt::Cmd("SADD"),
        raw(b"s"),
        RedisFmt::CRLF,
        RedisFmt::Cmd("LPUSH"),
        raw(b"open"),
    ];
    assert_eq!(
        stream.group(),
        vec![
            RedisCmd(vec![RedisFmt::Cmd("SET"), raw(b"a"), raw(b"b")]),
            RedisCmd(vec![]),
            RedisCmd(vec![RedisFmt::Cmd("SADD"), raw(b"s")]),
        ]
    );
    assert_eq!(Vec::<RedisFmt>::new().group(), vec![]);
    assert_eq!(vec![raw(b"x")].group(), vec![]);
}

#[test]
fn expiry_is_decoded_by_its_opcode() {
    let mut bytes = vec![0xFC];
    bytes.extend_from_slice(&(-5i64).to_le_bytes());
    bytes.push(0x00);
    assert_eq!(ExpireTime::from_buf(&bytes), Ok(ExpireTime::Ms(-5)));
    assert_eq!(ExpireTime::expire_in_ms(&bytes), Ok(ExpireTime::Ms(-5)));
    assert_eq!(ExpireTime::expire_in_sec(&bytes), Err(Error::Other));
    assert_eq!(ExpireTime::from_buf(&bytes[..8]), Err(Error::More));
    assert_eq!(
        ExpireTime::from_buf(&[0xFD, 0x10, 0x27, 0x00, 0x00, 0x01]),
        Ok(ExpireTime::Sec(10_000))
    );
    assert_eq!(ExpireTime::expire_in_sec(&[0xFD, 0xFF, 0xFF, 0xFF, 0xFF]), Ok(ExpireTime::Sec(-1)));
    assert_eq!(ExpireTime::expire_in_ms(&[0xFD, 0, 0, 0, 0]), Err(Error::Other));
    assert_eq!(ExpireTime::from_buf(&[0xFD, 0x10, 0x27, 0x00]), Err(Error::More));
    assert_eq!(ExpireTime::from_buf(&[0x00, 0x01]), Ok(ExpireTime::Never));
    assert_eq!(ExpireTime::from_buf(&[]), Ok(ExpireTime::Never));
    assert_eq!(ExpireTime::expire_in_ms(&[]), Err(Error::Other));
    assert_eq!(ExpireTime::expire_in_sec(&[]), Err(Error::Other));
    assert_eq!(ExpireTime::expire_in_ms(&[0xFC]), Err(Error::More));
    assert_eq!(ExpireTime::expire_in_sec(&[0xFD]), Err(Error::More));
    assert_eq!(ExpireTime::Ms(1).shift(), 9);
    assert_eq!(ExpireTime::Sec(1).shift(), 5);
    assert_eq!(ExpireTime::Never.shift(), 0);
}

#[test]
fn expiry_is_written_by_its_absolute_time() {
    let mut buf = vec![raw(b"before")];
    assert_eq!(ExpireTime::Ms(5_000).fmt_at(plain(b"k"), 4, &mut buf), 1);
    assert_eq!(
        buf,
        vec![raw(b"before"), RedisFmt::Cmd("PEXPIREAT"), raw(b"k"), raw(b"5000"), RedisFmt::CRLF]
    );
    let mut buf = Vec::new();
    assert_eq!(ExpireTime::Sec(5).fmt_at(RedisString::StrInt(StrInt::Small(9)), 4, &mut buf), 1);
    assert_eq!(buf, vec![RedisFmt::Cmd("EXPIREAT"), raw(b"9"), raw(b"5"), RedisFmt::CRLF]);
    let mut buf = Vec::new();
    assert_eq!(ExpireTime::Ms(5_000).fmt_at(plain(b"k"), 5, &mut buf), 0);
    assert_eq!(ExpireTime::Sec(5).fmt_at(plain(b"k"), 5, &mut buf), 0);
    assert_eq!(ExpireTime::Ms(-1).fmt_at(plain(b"k"), 0, &mut buf), 0);
    assert_eq!(ExpireTime::Sec(-1).fmt_at(plain(b"k"), 0, &mut buf), 0);
    assert_eq!(ExpireTime::Never.fmt_at(plain(b"k"), 0, &mut buf), 0);
    assert_eq!(ExpireTime::Ms(i64::MAX).fmt_at(plain(b"k"), u64::MAX, &mut buf), 0);
    assert!(buf.is_empty());
}

#[test]
fn expiry_is_held_against_the_system_clock() {
    let mut buf = Vec::new();
    assert_eq!(ExpireTime::Ms(i64::MAX).fmt(plain(b"k"), &mut buf), 1);
    assert_eq!(ExpireTime::Sec(i32::MAX).fmt(plain(b"k"), &mut buf), 1);
    assert_eq!(ExpireTime::Ms(1_000_000).fmt(plain(b"k"), &mut buf), 0);
    assert_eq!(ExpireTime::Sec(1_000_000).fmt(plain(b"k"), &mut buf), 0);
    assert_eq!(ExpireTime::Never.fmt(plain(b"k"), &mut buf), 0);
    assert_eq!(
        buf,
        vec![
            RedisFmt::Cmd("PEXPIREAT"),
            raw(b"k"),
            raw(b"9223372036854775807"),
            RedisFmt::CRLF,
            RedisFmt::Cmd("EXPIREAT"),
            raw(b"k"),
            raw(b"2147483647"),
            RedisFmt::CRLF,
        ]
    );
}

#[test]
fn time_left_until_the_expiry() {
    let mut buf = b"SET k v ".to_vec();
    ExpireTime::Ms(10_500).expire_str_at(10_000, &mut buf);
    assert_eq!(buf, b"SET k v PX 500".to_vec());
    let mut buf = Vec::new();
    ExpireTime::Sec(20).expire_str_at(10_500, &mut buf);
    assert_eq!(buf, b"EX 9".to_vec());
    let mut buf = Vec::new();
    ExpireTime::Sec(20).expire_str_at(20_000, &mut buf);
    assert_eq!(buf, b"EX 0".to_vec());
    ExpireTime::Never.expire_str_at(7, &mut buf);
    assert_eq!(buf, b"EX 0".to_vec());
}

#[test]
fn time_left_by_the_system_clock() {
    let mut buf = Vec::new();
    ExpireTime::Never.expire_str(&mut buf);
    ExpireTime::Ms(1_000).expire_str(&mut buf);
    ExpireTime::Sec(-1).expire_str(&mut buf);
    ExpireTime::Ms(-1).expire_str(&mut buf);
    assert!(buf.is_empty());
    ExpireTime::Sec(i32::MAX).expire_str(&mut buf);
    assert!(buf.starts_with(b"EX "));
    let left: i64 = String::from_utf8(buf[3..].to_vec()).unwrap().parse().unwrap();
    assert!(0 < left && left < i32::MAX as i64);
    let mut buf = Vec::new();
    ExpireTime::Ms(i64::MAX).expire_str(&mut buf);
    assert!(buf.starts_with(b"PX "));
    let left: i64 = String::from_utf8(buf[3..].to_vec()).unwrap().parse().unwrap();
    assert!(left > i64::MAX / 2);
}

#[test]
fn record_is_type_key_and_value() {
    let bytes = [0x00, 0x01, 0x6B, 0xC0, 0x2A, 0x99];
    let record = RedisData::from_buf(&bytes).unwrap();
    assert_eq!(record, RedisData::String(plain(b"k"), RedisString::StrInt(StrInt::Small(42))));
    assert_eq!(record.copy_key(), plain(b"k"));
    let w = record.shift();
    assert_eq!(w, 5);
    assert_eq!(RedisData::from_buf(&bytes[..w]), Ok(record));
    for n in 0..w {
        assert_eq!(RedisData::from_buf(&bytes[..n]), Err(Error::More), "{} bytes", n);
    }
}

#[test]
fn record_types_choose_the_variant() {
    let list = [0x01, 0x6B, 0x01, 0x01, 0x61];
    let string = [0x01, 0x6B, 0x01, 0x61];
    let with = |kind: u8, rest: &[u8]| {
        let mut bytes = vec![kind];
        bytes.extend_from_slice(rest);
        RedisData::from_buf(&bytes)
    };
    assert!(matches!(with(0, &string), Ok(RedisData::String(_, _))));
    assert!(matches!(with(1, &list), Ok(RedisData::List(_, _))));
    assert!(matches!(with(2, &list), Ok(RedisData::Sets(_, _))));
    assert!(matches!(with(10, &string), Ok(RedisData::ListZipList(_, _))));
    assert!(matches!(with(11, &string), Ok(RedisData::SetIntSet(_, _))));
    assert!(matches!(with(12, &string), Ok(RedisData::ZSetZipList(_, _))));
    assert!(matches!(with(13, &string), Ok(RedisData::HashZipList(_, _))));
    let pairs = [0x01, 0x6B, 0x01, 0x01, 0x61, 0x01, 0x31];
    assert!(matches!(with(3, &pairs), Ok(RedisData::ZSet(_, _))));
    assert!(matches!(with(4, &pairs), Ok(RedisData::Hash(_, _))));
    assert_eq!(with(9, &string), Err(Error::Faild("zipmap is not supported")));
    assert_eq!(with(5, &string), Err(Error::Faild("record type")));
    assert_eq!(with(0xFE, &string), Err(Error::Faild("record type")));
    assert_eq!(with(9, &[0x05, 0x6B]), Err(Error::More));
    for kind in [0u8, 1, 2, 3, 4, 10, 11, 12, 13] {
        let record = with(kind, &[0x01, 0x6B, 0x01, 0x01, 0x61, 0x01, 0x31]).unwrap();
        assert_eq!(record.copy_key(), plain(b"k"), "type {}", kind);
    }
}

#[test]
fn plain_string_record_is_written_byte_for_byte() {
    let key: Vec<u8> = (0..=255u8).collect();
    let value: Vec<u8> = (0..70_000u32).map(|i| (i % 251) as u8).collect();
    let mut bytes = vec![0x00, 0x41, 0x00];
    bytes.extend_from_slice(&key);
    bytes.extend_from_slice(&[0x80, 0x00, 0x01, 0x11, 0x70]);
    bytes.extend_from_slice(&value);
    let record = RedisData::from_buf(&bytes).unwrap();
    assert_eq!(record.shift(), bytes.len());
    let mut buf = Vec::new();
    assert_eq!(record.fmt(0, &mut buf), Ok(1));
    assert_eq!(
        buf,
        vec![RedisFmt::Cmd("SET"), RedisFmt::Raw(key), RedisFmt::Raw(value), RedisFmt::CRLF]
    );
}

#[test]
fn record_that_cannot_be_written_leaves_the_stream_alone() {
    let record = RedisData::from_buf(&[0x0B, 0x01, 0x73, 0x04, 0x02, 0x00, 0x00, 0x00]).unwrap();
    let mut buf = vec![raw(b"kept")];
    assert_eq!(record.fmt(0, &mut buf), Err(Error::Faild("nested value")));
    assert_eq!(buf, vec![raw(b"kept")]);
}

#[test]
fn entries_of_the_envelope() {
    assert_eq!(RdbEntry::header(b"REDIS0006\xFF"), Ok(RdbEntry::Version(6)));
    assert_eq!(RdbEntry::header(b"REDIS9870"), Ok(RdbEntry::Version(9870)));
    assert_eq!(RdbEntry::header(b"REDIS000"), Err(Error::More));
    assert_eq!(RdbEntry::header(b"redis0006"), Err(Error::Faild("header")));
    assert_eq!(RdbEntry::header(b"REDIS 006"), Err(Error::Faild("header")));
    assert_eq!(RdbEntry::sector(&[0xFE, 0x05]), Ok(RdbEntry::Sector(Length::Small(5))));
    assert_eq!(RdbEntry::sector(&[0xFE, 0x41, 0x00]), Ok(RdbEntry::Sector(Length::Normal(256))));
    assert_eq!(RdbEntry::sector(&[0xFE]), Err(Error::More));
    assert_eq!(RdbEntry::sector(&[]), Err(Error::More));
    assert_eq!(RdbEntry::sector(&[0xFF]), Err(Error::Other));
    assert_eq!(RdbEntry::data(&[0xFF]), Err(Error::Other));
    assert_eq!(RdbEntry::data(&[]), Err(Error::More));
    assert_eq!(
        RdbEntry::crc(&[0xFF, 1, 2, 3, 4, 5, 6, 7, 8, 9]),
        Ok(RdbEntry::Crc(vec![1, 2, 3, 4, 5, 6, 7, 8]))
    );
    assert_eq!(RdbEntry::crc(&[0xFF, 1, 2, 3, 4, 5, 6, 7]), Err(Error::More));
    assert_eq!(RdbEntry::crc(&[0x00, 1, 2, 3, 4, 5, 6, 7, 8]), Err(Error::Faild("end of file")));
    assert_eq!(RdbEntry::Version(6).shift(), 9);
    assert_eq!(RdbEntry::Sector(Length::Normal(256)).shift(), 3);
    assert_eq!(RdbEntry::Crc(vec![0; 8]).shift(), 9);
}

#[test]
fn record_entry_is_expiry_and_record() {
    let mut bytes = vec![0xFD];
    bytes.extend_from_slice(&2_000_000_000i32.to_le_bytes());
    bytes.extend_from_slice(&[0x00, 0x01, 0x6B, 0x01, 0x76, 0xFF]);
    let entry = RdbEntry::data(&bytes).unwrap();
    assert_eq!(
        entry,
        RdbEntry::Data {
            expire: ExpireTime::Sec(2_000_000_000),
            data: RedisData::String(plain(b"k"), plain(b"v")),
        }
    );
    let w = entry.shift();
    assert_eq!(w, 10);
    assert_eq!(RdbEntry::data(&bytes[..w]), Ok(entry.clone()));
    assert_eq!(RdbEntry::data(&bytes[..w - 1]), Err(Error::More));
    let mut buf = Vec::new();
    assert_eq!(entry.clone().fmt(1_999_999_999, &mut buf), Ok(2));
    assert_eq!(buf.len(), 8);
    let mut buf = Vec::new();
    assert_eq!(entry.fmt(2_000_000_000, &mut buf), Ok(1));
    assert_eq!(buf, vec![RedisFmt::Cmd("SET"), raw(b"k"), raw(b"v"), RedisFmt::CRLF]);
    let mut buf = Vec::new();
    assert_eq!(RdbEntry::Version(6).fmt(0, &mut buf), Ok(0));
    assert_eq!(RdbEntry::Sector(Length::Small(0)).fmt(0, &mut buf), Ok(0));
    assert_eq!(RdbEntry::Crc(vec![0; 8]).fmt(0, &mut buf), Ok(0));
    assert!(buf.is_empty());
}

#[test]
fn moves_of_the_machine() {
    assert_eq!(
        advance(State::Header, b"REDIS0007"),
        Ok(Move::Emit(RdbEntry::Version(7), State::Sector))
    );
    assert_eq!(advance(State::Header, b"REDIS"), Err(Error::More));
    assert_eq!(
        advance(State::Sector, &[0xFE, 0x01]),
        Ok(Move::Emit(RdbEntry::Sector(Length::Small(1)), State::Data))
    );
    assert_eq!(advance(State::Sector, &[0xFF]), Ok(Move::Goto(State::Crc)));
    assert_eq!(advance(State::Data, &[0xFF]), Ok(Move::Goto(State::Crc)));
    assert_eq!(advance(State::Data, &[0x00, 0x01]), Err(Error::More));
    assert!(matches!(
        advance(State::Data, &[0x00, 0x01, 0x6B, 0x00]),
        Ok(Move::Emit(RdbEntry::Data { .. }, State::Data))
    ));
    assert_eq!(
        advance(State::Crc, &[0xFF, 0, 0, 0, 0, 0, 0, 0, 0]),
        Ok(Move::Emit(RdbEntry::Crc(vec![0; 8]), State::End))
    );
    assert_eq!(advance(State::Crc, &[0x01]), Err(Error::Faild("end of file")));
    assert_eq!(advance(State::End, &[0x01]), Ok(Move::Halt));
    assert_eq!(advance(State::End, &[]), Ok(Move::Halt));
}

#[test]
fn parsing_and_draining_by_hand() {
    let mut parser = DefaultRdbParser::default();
    assert_eq!(parser.state(), State::Header);
    assert!(parser.checksum().is_empty());
    parser.feed(b"REDIS0006\xFE\x00\x00\x01a\x01b\x00\x01");
    assert_eq!(parser.parse(), Ok(()));
    assert_eq!(parser.state(), State::Data);
    assert_eq!(parser.local_buf(), &[0x00, 0x01]);
    let entries = parser.drain_buf();
    assert_eq!(
        entries,
        vec![
            RdbEntry::Version(6),
            RdbEntry::Sector(Length::Small(0)),
            RdbEntry::Data {
                expire: ExpireTime::Never,
                data: RedisData::String(plain(b"a"), plain(b"b")),
            },
        ]
    );
    assert_eq!(parser.local_buf(), &[0x00, 0x01]);
    assert!(parser.drain_buf().is_empty());
    parser.feed(b"c\x01d\xFF12345678");
    assert_eq!(parser.parse(), Ok(()));
    assert_eq!(parser.state(), State::End);
    assert_eq!(parser.checksum(), &b"12345678".to_vec());
    assert_eq!(parser.drain_buf().len(), 2);
    assert_eq!(parser.parse(), Ok(()));
    assert!(parser.drain_buf().is_empty());
}

#[test]
fn stream_that_stops_inside_the_envelope_is_cut_short() {
    let set = || vec![RedisCmd(vec![RedisFmt::Cmd("SET"), raw(b"a"), raw(b"b")])];
    let mut parser = DefaultRdbParser::default();
    assert!(parser.is_cut_short());
    assert_eq!(parser.when_stopped(vec![]), Err(Error::More));
    assert_eq!(parser.when_stopped(set()), Ok(set()));
    assert!(parser.read_to_cmd(b"REDIS0006").unwrap().is_empty());
    assert_eq!(parser.state(), State::Sector);
    assert!(parser.is_cut_short());
    let cmds = parser.read_to_cmd(b"\xFE\x00\x00\x01a\x01b").unwrap();
    assert_eq!(parser.state(), State::Data);
    assert!(!parser.is_cut_short());
    assert_eq!(parser.when_stopped(cmds), Ok(set()));
    assert_eq!(parser.when_stopped(vec![]), Ok(vec![]));
    let none = parser.read_to_cmd(b"\xFF\x00").unwrap();
    assert_eq!(parser.state(), State::Crc);
    assert!(parser.is_cut_short());
    assert_eq!(parser.when_stopped(none), Err(Error::More));
    assert!(parser.read_to_cmd(&[0; 7]).unwrap().is_empty());
    assert_eq!(parser.state(), State::End);
    assert!(!parser.is_cut_short());
    assert_eq!(parser.when_stopped(vec![]), Ok(vec![]));
}
