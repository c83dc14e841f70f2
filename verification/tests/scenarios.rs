use libnewbee::{DefaultRdbParser, Error, RedisCmd, State};

const HEADER: [u8; 9] = [0x52, 0x45, 0x44, 0x49, 0x53, 0x30, 0x30, 0x30, 0x36];

fn snapshot(body: &[u8]) -> Vec<u8> {
    let mut bytes = HEADER.to_vec();
    bytes.extend_from_slice(&[0xFE, 0x00]);
    bytes.extend_from_slice(body);
    bytes.push(0xFF);
    bytes.extend_from_slice(&[0; 8]);
    bytes
}

fn text(words: &[&str]) -> Vec<Vec<u8>> {
    words.iter().map(|w| w.as_bytes().to_vec()).collect()
}

fn argvs(cmds: Vec<RedisCmd>) -> Vec<Vec<Vec<u8>>> {
    cmds.into_iter().map(|cmd| cmd.into_data()).collect()
}

fn commands_of(input: &[u8]) -> Vec<Vec<Vec<u8>>> {
    let mut parser = DefaultRdbParser::default();
    let cmds = parser.read_to_cmd(input).unwrap();
    assert_eq!(parser.state(), State::End);
    argvs(cmds)
}

#[test]
fn empty_database_version_6() {
    let input = [
        0x52, 0x45, 0x44, 0x49, 0x53, 0x30, 0x30, 0x30, 0x36, 0xFF, 0x00, 0x00, 0x00, 0x00, 0x00,
        0x00, 0x00, 0x00,
    ];
    let mut parser = DefaultRdbParser::default();
    let cmds = parser.read_to_cmd(&input).unwrap();
    assert!(cmds.is_empty());
    assert_eq!(parser.state(), State::End);
    assert_eq!(parser.checksum(), &vec![0u8; 8]);
    assert!(parser.local_buf().is_empty());
}

#[test]
fn one_integer_valued_string_with_no_expiry() {
    let input = snapshot(&[0x00, 0x03, 0x66, 0x6F, 0x6F, 0xC0, 0x2A]);
    assert_eq!(commands_of(&input), vec![text(&["SET", "foo", "42"])]);
}

#[test]
fn string_with_millisecond_expiry_in_the_far_future() {
    let mut body = vec![0xFC];
    body.extend_from_slice(&9_999_999_999_999i64.to_le_bytes());
    body.extend_from_slice(&[0x00, 0x03, 0x66, 0x6F, 0x6F, 0x03, 0x62, 0x61, 0x72]);
    assert_eq!(
        commands_of(&snapshot(&body)),
        vec![text(&["SET", "foo", "bar"]), text(&["PEXPIREAT", "foo", "9999999999999"])]
    );
}

#[test]
fn string_with_second_expiry_in_the_far_future() {
    let mut body = vec![0xFD];
    body.extend_from_slice(&2_000_000_000i32.to_le_bytes());
    body.extend_from_slice(&[0x00, 0x03, 0x66, 0x6F, 0x6F, 0x03, 0x62, 0x61, 0x72]);
    let mut parser = DefaultRdbParser::default();
    let cmds = parser.read_to_cmd_at(&snapshot(&body), 1_700_000_000).unwrap();
    assert_eq!(
        argvs(cmds),
        vec![text(&["SET", "foo", "bar"]), text(&["EXPIREAT", "foo", "2000000000"])]
    );
}

#[test]
fn string_with_expiry_in_the_past_keeps_its_value_only() {
    let mut body = vec![0xFC];
    body.extend_from_slice(&1_000i64.to_le_bytes());
    body.extend_from_slice(&[0x00, 0x03, 0x66, 0x6F, 0x6F, 0x03, 0x62, 0x61, 0x72]);
    assert_eq!(commands_of(&snapshot(&body)), vec![text(&["SET", "foo", "bar"])]);
}

#[test]
fn expiry_at_the_very_instant_is_not_in_the_future() {
    let mut body = vec![0xFD];
    body.extend_from_slice(&100i32.to_le_bytes());
    body.extend_from_slice(&[0x00, 0x01, 0x6B, 0x01, 0x76]);
    let input = snapshot(&body);
    let mut parser = DefaultRdbParser::default();
    assert_eq!(argvs(parser.read_to_cmd_at(&input, 100).unwrap()), vec![text(&["SET", "k", "v"])]);
    let mut parser = DefaultRdbParser::default();
    assert_eq!(
        argvs(parser.read_to_cmd_at(&input, 99).unwrap()),
        vec![text(&["SET", "k", "v"]), text(&["EXPIREAT", "k", "100"])]
    );
}

#[test]
fn millisecond_expiry_is_held_against_the_instant_in_milliseconds() {
    let mut body = vec![0xFC];
    body.extend_from_slice(&100_500i64.to_le_bytes());
    body.extend_from_slice(&[0x00, 0x01, 0x6B, 0x01, 0x76]);
    let input = snapshot(&body);
    let mut parser = DefaultRdbParser::default();
    assert_eq!(
        argvs(parser.read_to_cmd_at(&input, 100).unwrap()),
        vec![text(&["SET", "k", "v"]), text(&["PEXPIREAT", "k", "100500"])]
    );
    let mut parser = DefaultRdbParser::default();
    assert_eq!(argvs(parser.read_to_cmd_at(&input, 101).unwrap()), vec![text(&["SET", "k", "v"])]);
}

#[test]
fn linked_list_of_three_strings() {
    let input = snapshot(&[0x01, 0x01, 0x6C, 0x03, 0x01, 0x61, 0x01, 0x62, 0x01, 0x63]);
    assert_eq!(commands_of(&input), vec![text(&["LPUSH", "l", "a", "b", "c"])]);
}

#[test]
fn set_of_two_strings() {
    let input = snapshot(&[0x02, 0x01, 0x73, 0x02, 0x01, 0x61, 0xC0, 0x07]);
    assert_eq!(commands_of(&input), vec![text(&["SADD", "s", "a", "7"])]);
}

#[test]
fn sorted_set_inline() {
    let input = snapshot(&[
        0x03, 0x01, 0x7A, 0x02, 0x02, 0x6D, 0x31, 0x03, 0x31, 0x2E, 0x35, 0x02, 0x6D, 0x32, 0x01,
        0x32,
    ]);
    assert_eq!(commands_of(&input), vec![text(&["ZADD", "z", "1.5", "m1", "2", "m2"])]);
}

#[test]
fn hash_inline() {
    let input = snapshot(&[
        0x04, 0x01, 0x68, 0x02, 0x01, 0x61, 0x01, 0x31, 0x01, 0x62, 0x01, 0x32,
    ]);
    assert_eq!(commands_of(&input), vec![text(&["HSET", "h", "a", "1", "b", "2"])]);
}

#[test]
fn intset_with_three_2_byte_values() {
    let input = snapshot(&[
        0x0B, 0x01, 0x73, 0x0E, 0x02, 0x00, 0x00, 0x00, 0x03, 0x00, 0x00, 0x00, 0x01, 0x00, 0x02,
        0x00, 0x03, 0x00,
    ]);
    assert_eq!(commands_of(&input), vec![text(&["SADD", "s", "1", "2", "3"])]);
}

fn ziplist_of(entries: &[&[u8]]) -> Vec<u8> {
    let mut body = Vec::new();
    for entry in entries {
        body.push(0x00);
        body.push(entry.len() as u8);
        body.extend_from_slice(entry);
    }
    let mut list = vec![(7 + body.len()) as u8, 0, 0, 0, 0, entries.len() as u8, 0];
    list.extend_from_slice(&body);
    list.push(0xFF);
    list
}

fn record_with_nested(kind: u8, key: &[u8], nested: &[u8]) -> Vec<u8> {
    let mut body = vec![kind, key.len() as u8];
    body.extend_from_slice(key);
    body.push(nested.len() as u8);
    body.extend_from_slice(nested);
    body
}

#[test]
fn list_in_a_ziplist() {
    let list = ziplist_of(&[b"a", b"bc"]);
    let input = snapshot(&record_with_nested(10, b"l", &list));
    assert_eq!(commands_of(&input), vec![text(&["RPUSH", "l", "a", "bc"])]);
}

#[test]
fn hash_in_a_ziplist() {
    let list = ziplist_of(&[b"f", b"1", b"g", b"2"]);
    let input = snapshot(&record_with_nested(13, b"h", &list));
    assert_eq!(commands_of(&input), vec![text(&["HSET", "h", "f", "1", "g", "2"])]);
}

#[test]
fn sorted_set_in_a_ziplist_puts_scores_first() {
    let list = ziplist_of(&[b"m1", b"1.5", b"m2", b"-2e3"]);
    let input = snapshot(&record_with_nested(12, b"z", &list));
    assert_eq!(commands_of(&input), vec![text(&["ZADD", "z", "1.5", "m1", "-2e3", "m2"])]);
}

#[test]
fn sorted_set_in_a_ziplist_with_a_bad_score_is_malformed() {
    let list = ziplist_of(&[b"m1", b"1.5", b"m2", b"high"]);
    let input = snapshot(&record_with_nested(12, b"z", &list));
    let mut parser = DefaultRdbParser::default();
    assert_eq!(parser.read_to_cmd(&input), Err(Error::Faild("zset score")));
}

#[test]
fn sorted_set_in_a_ziplist_with_a_missing_score_is_malformed() {
    let list = ziplist_of(&[b"m1", b"1.5", b"m2"]);
    let input = snapshot(&record_with_nested(12, b"z", &list));
    let mut parser = DefaultRdbParser::default();
    assert_eq!(parser.read_to_cmd(&input), Err(Error::Faild("zset score")));
}

#[test]
fn commands_before_a_fault_stay_with_the_parser() {
    let mut body = vec![0x00, 0x01, 0x61, 0x01, 0x62];
    body.extend_from_slice(&record_with_nested(12, b"z", &ziplist_of(&[b"m", b"x"])));
    body.extend_from_slice(&[0x00, 0x01, 0x63, 0x01, 0x64]);
    let input = snapshot(&body);
    let mut parser = DefaultRdbParser::default();
    assert_eq!(parser.read_to_cmd(&input), Err(Error::Faild("zset score")));
    assert_eq!(argvs(parser.take_cmds()), vec![text(&["SET", "a", "b"])]);
    assert!(parser.take_cmds().is_empty());
}

#[test]
fn commands_before_a_malformed_record_stay_with_the_parser() {
    let mut input = HEADER.to_vec();
    input.extend_from_slice(&[0xFE, 0x00, 0x00, 0x01, 0x61, 0x01, 0x62, 0x09, 0x01, 0x6B, 0x00]);
    let mut parser = DefaultRdbParser::default();
    assert_eq!(parser.read_to_cmd(&input), Err(Error::Faild("zipmap is not supported")));
    assert_eq!(argvs(parser.take_cmds()), vec![text(&["SET", "a", "b"])]);
    assert_eq!(parser.state(), State::Data);
}

#[test]
fn truncated_nested_ziplist_is_malformed() {
    let mut list = ziplist_of(&[b"a", b"bc"]);
    list.pop();
    let input = snapshot(&record_with_nested(10, b"l", &list));
    let mut parser = DefaultRdbParser::default();
    assert_eq!(parser.read_to_cmd(&input), Err(Error::Faild("nested value")));
}

#[test]
fn intset_with_an_unknown_width_is_malformed() {
    let input = snapshot(&record_with_nested(11, b"s", &[3, 0, 0, 0, 0, 0, 0, 0]));
    let mut parser = DefaultRdbParser::default();
    assert_eq!(parser.read_to_cmd(&input), Err(Error::Faild("intset encoding")));
}

#[test]
fn bytes_fed_one_at_a_time_give_the_same_commands() {
    let mut body = vec![0xFC];
    body.extend_from_slice(&9_999_999_999_999i64.to_le_bytes());
    body.extend_from_slice(&[0x00, 0x03, 0x66, 0x6F, 0x6F, 0x03, 0x62, 0x61, 0x72]);
    body.extend_from_slice(&[0x01, 0x01, 0x6C, 0x03, 0x01, 0x61, 0x01, 0x62, 0x01, 0x63]);
    let input = snapshot(&body);
    let whole = commands_of(&input);
    let mut parser = DefaultRdbParser::default();
    let mut got = Vec::new();
    for (i, byte) in input.iter().enumerate() {
        assert_ne!(parser.state(), State::End, "byte {}", i);
        got.extend(argvs(parser.read_to_cmd(&[*byte]).unwrap()));
    }
    assert_eq!(parser.state(), State::End);
    assert_eq!(got, whole);
    assert_eq!(got.len(), 3);
}

#[test]
fn short_input_waits_without_moving() {
    let input = snapshot(&[0x00, 0x03, 0x66, 0x6F, 0x6F, 0x03, 0x62, 0x61, 0x72]);
    let mut parser = DefaultRdbParser::default();
    assert!(parser.read_to_cmd(&input[..4]).unwrap().is_empty());
    assert_eq!(parser.state(), State::Header);
    assert_eq!(parser.local_buf(), &input[..4]);
    assert!(parser.read_to_cmd(&input[4..15]).unwrap().is_empty());
    assert_eq!(parser.state(), State::Data);
    assert_eq!(parser.local_buf(), &input[11..15]);
    let cmds = parser.read_to_cmd(&input[15..]).unwrap();
    assert_eq!(argvs(cmds), vec![text(&["SET", "foo", "bar"])]);
    assert_eq!(parser.state(), State::End);
}

#[test]
fn bytes_behind_the_end_are_left_unread() {
    let mut input = snapshot(&[]);
    input.extend_from_slice(&[1, 2, 3]);
    let mut parser = DefaultRdbParser::default();
    assert!(parser.read_to_cmd(&input).unwrap().is_empty());
    assert_eq!(parser.state(), State::End);
    assert_eq!(parser.local_buf(), &[1, 2, 3]);
    assert!(parser.read_to_cmd(&[4]).unwrap().is_empty());
    assert_eq!(parser.local_buf(), &[1, 2, 3, 4]);
}

#[test]
fn wrong_magic_is_malformed() {
    let mut parser = DefaultRdbParser::default();
    assert_eq!(parser.read_to_cmd(b"REDIX0006\xFF"), Err(Error::Faild("header")));
    assert_eq!(parser.state(), State::Header);
}

#[test]
fn version_that_is_no_number_is_malformed() {
    let mut parser = DefaultRdbParser::default();
    assert_eq!(parser.read_to_cmd(b"REDIS00a6\xFF"), Err(Error::Faild("header")));
}

#[test]
fn missing_end_marker_is_malformed() {
    let mut input = HEADER.to_vec();
    input.push(0x00);
    let mut parser = DefaultRdbParser::default();
    assert_eq!(parser.read_to_cmd(&input), Err(Error::Faild("end of file")));
    assert_eq!(parser.state(), State::Crc);
}

#[test]
fn database_number_that_is_no_length_is_malformed() {
    let mut input = HEADER.to_vec();
    input.extend_from_slice(&[0xFE, 0xC0]);
    let mut parser = DefaultRdbParser::default();
    assert_eq!(parser.read_to_cmd(&input), Err(Error::Faild("not a length")));
}

#[test]
fn unknown_record_type_is_malformed() {
    let input = snapshot(&[0x05, 0x01, 0x6B, 0x00]);
    let mut parser = DefaultRdbParser::default();
    assert_eq!(parser.read_to_cmd(&input), Err(Error::Faild("record type")));
}

#[test]
fn zipmap_is_not_supported() {
    let input = snapshot(&[0x09, 0x01, 0x6B, 0x00]);
    let mut parser = DefaultRdbParser::default();
    assert_eq!(parser.read_to_cmd(&input), Err(Error::Faild("zipmap is not supported")));
}

#[test]
fn compressed_value_is_written_decompressed() {
    let mut body = vec![0x00, 0x01, 0x6B, 0xC3, 0x09, 0x40, 0xC8];
    body.extend_from_slice(&[1, 97, 97, 224, 187, 0, 1, 97, 97]);
    let got = commands_of(&snapshot(&body));
    assert_eq!(got, vec![vec![b"SET".to_vec(), b"k".to_vec(), vec![97u8; 200]]]);
}

#[test]
fn corrupt_compressed_value_is_malformed() {
    let body = [0x00, 0x01, 0x6B, 0xC3, 0x02, 0x05, 0xE0, 0x00];
    let mut parser = DefaultRdbParser::default();
    assert_eq!(parser.read_to_cmd(&snapshot(&body)), Err(Error::Faild("lzf")));
}

#[test]
fn key_with_a_length_of_fourteen_bits() {
    let key = vec![0x6Bu8; 300];
    let mut body = vec![0x00, 0x41, 0x2C];
    body.extend_from_slice(&key);
    body.extend_from_slice(&[0x01, 0x76]);
    let got = commands_of(&snapshot(&body));
    assert_eq!(got, vec![vec![b"SET".to_vec(), key, b"v".to_vec()]]);
}

#[test]
fn records_are_written_in_their_order_each_before_its_expiry() {
    let mut body = vec![0xFD];
    body.extend_from_slice(&2_000_000_000i32.to_le_bytes());
    body.extend_from_slice(&[0x00, 0x01, 0x61, 0x01, 0x31]);
    body.extend_from_slice(&[0x02, 0x01, 0x62, 0x01, 0x01, 0x78]);
    body.push(0xFC);
    body.extend_from_slice(&3_000_000_000_000i64.to_le_bytes());
    body.extend_from_slice(&[0x01, 0x01, 0x63, 0x00]);
    let mut parser = DefaultRdbParser::default();
    let cmds = parser.read_to_cmd_at(&snapshot(&body), 1_900_000_000).unwrap();
    assert_eq!(
        argvs(cmds),
        vec![
            text(&["SET", "a", "1"]),
            text(&["EXPIREAT", "a", "2000000000"]),
            text(&["SADD", "b", "x"]),
            text(&["LPUSH", "c"]),
            text(&["PEXPIREAT", "c", "3000000000000"]),
        ]
    );
    assert!(parser.take_cmds().is_empty());
}

#[test]
fn feeding_in_two_parts_gives_what_feeding_at_once_gives() {
    let mut body = vec![0xFD];
    body.extend_from_slice(&2_000_000_000i32.to_le_bytes());
    body.extend_from_slice(&[0x00, 0x03, 0x66, 0x6F, 0x6F, 0x03, 0x62, 0x61, 0x72]);
    body.extend_from_slice(&record_with_nested(10, b"l", &ziplist_of(&[b"a", b"bc"])));
    body.extend_from_slice(&[0x03, 0x01, 0x7A, 0x01, 0x01, 0x6D, 0x01, 0x31]);
    let mut input = snapshot(&body);
    let last = input.len() - 1;
    input[last] = 0x07;
    let mut at_once = DefaultRdbParser::default();
    let whole = argvs(at_once.read_to_cmd_at(&input, 5).unwrap());
    assert_eq!(whole.len(), 4);
    for cut in 0..=input.len() {
        let mut parser = DefaultRdbParser::default();
        let mut got = argvs(parser.read_to_cmd_at(&input[..cut], 5).unwrap());
        got.extend(argvs(parser.read_to_cmd_at(&input[cut..], 5).unwrap()));
        assert_eq!(got, whole, "cut at {}", cut);
        assert_eq!(parser.state(), at_once.state(), "cut at {}", cut);
        assert_eq!(parser.checksum(), at_once.checksum(), "cut at {}", cut);
        assert_eq!(parser.local_buf(), at_once.local_buf(), "cut at {}", cut);
    }
}

#[test]
fn fault_in_the_second_part_is_the_fault_of_the_whole() {
    let mut body = vec![0x00, 0x01, 0x61, 0x01, 0x62];
    body.extend_from_slice(&[0x09, 0x01, 0x6B, 0x00]);
    let input = snapshot(&body);
    let mut at_once = DefaultRdbParser::default();
    assert_eq!(at_once.read_to_cmd_at(&input, 5), Err(Error::Faild("zipmap is not supported")));
    let mut parser = DefaultRdbParser::default();
    let first = argvs(parser.read_to_cmd_at(&input[..17], 5).unwrap());
    assert_eq!(first, vec![text(&["SET", "a", "b"])]);
    assert_eq!(
        parser.read_to_cmd_at(&input[17..], 5),
        Err(Error::Faild("zipmap is not supported"))
    );
    assert_eq!(parser.state(), at_once.state());
    assert_eq!(parser.local_buf(), at_once.local_buf());
    let mut both = first;
    both.extend(argvs(parser.take_cmds()));
    assert_eq!(both, argvs(at_once.take_cmds()));
}
