use libnewbee::codec::{
    IntSet, IntSetCount, IntSetEncoding, IntSetValue, Length, ZLELen, ZLESpData, ZipList,
    ZipListEntry, ZipListLen, ZipListTail,
};
use libnewbee::{Error, FromBuf, Shift};

#[test]
fn ziplist_header_fields_are_little_endian() {
    assert_eq!(
        ZipListTail::from_buf(&[0x01, 0x02, 0x03, 0x04, 0x05]),
        Ok(ZipListTail(0x0403_0201))
    );
    assert_eq!(ZipListTail::from_buf(&[0x01, 0x02, 0x03]), Err(Error::More));
    assert_eq!(ZipListTail(9).shift(), 4);
    assert_eq!(ZipListLen::from_buf(&[0x01, 0x02, 0x03]), Ok(ZipListLen(0x0201)));
    assert_eq!(ZipListLen::from_buf(&[0x01]), Err(Error::More));
    assert_eq!(ZipListLen(9).shift(), 2);
}

#[test]
fn previous_length_in_one_byte_or_in_five() {
    assert_eq!(ZLELen::from_buf(&[0x00]), Ok(ZLELen::Small(0)));
    assert_eq!(ZLELen::from_buf(&[0xFD, 0x01]), Ok(ZLELen::Small(0xFD)));
    assert_eq!(ZLELen::from_buf(&[0xFE, 0x01, 0x02, 0x03, 0x04]), Ok(ZLELen::Large(0x0403_0201)));
    assert_eq!(ZLELen::from_buf(&[0xFE, 0x01, 0x02, 0x03]), Err(Error::More));
    assert_eq!(ZLELen::from_buf(&[]), Err(Error::More));
    assert_eq!(ZLELen::from_buf(&[0xFF, 0x01]), Err(Error::Faild("ziplist entry length")));
    assert_eq!(ZLELen::Small(3).shift(), 1);
    assert_eq!(ZLELen::Large(3).shift(), 5);
}

#[test]
fn entry_strings_of_the_three_size_classes() {
    let small = ZLESpData::from_buf(&[0x02, 0x61, 0x62, 0x63]).unwrap();
    assert_eq!(small, ZLESpData::SmallStr(b"ab".to_vec()));
    assert_eq!(small.shift(), 3);
    let mut bytes = vec![0x41, 0x00];
    bytes.extend_from_slice(&[0x78; 256]);
    let normal = ZLESpData::from_buf(&bytes).unwrap();
    assert_eq!(normal, ZLESpData::NormalStr(vec![0x78; 256]));
    assert_eq!(normal.shift(), 258);
    let large = ZLESpData::from_buf(&[0x80, 0x00, 0x00, 0x00, 0x02, 0x61, 0x62]).unwrap();
    assert_eq!(large, ZLESpData::LargeStr(b"ab".to_vec()));
    assert_eq!(large.shift(), 7);
    assert_eq!(large.into_data(), b"ab".to_vec());
    assert_eq!(ZLESpData::from_buf(&[0x00]), Ok(ZLESpData::SmallStr(vec![])));
}

#[test]
fn entry_strings_cut_short_ask_for_more() {
    assert_eq!(ZLESpData::from_buf(&[]), Err(Error::More));
    assert_eq!(ZLESpData::from_buf(&[0x02, 0x61]), Err(Error::More));
    assert_eq!(ZLESpData::from_buf(&[0x41]), Err(Error::More));
    assert_eq!(ZLESpData::from_buf(&[0x40, 0x02, 0x61]), Err(Error::More));
    assert_eq!(ZLESpData::from_buf(&[0x80, 0x00, 0x00, 0x00]), Err(Error::More));
    assert_eq!(ZLESpData::from_buf(&[0x80, 0x00, 0x00, 0x00, 0x02, 0x61]), Err(Error::More));
    assert_eq!(ZLESpData::from_buf(&[0x80, 0xFF, 0xFF, 0xFF, 0xFF, 0x61]), Err(Error::More));
}

#[test]
fn entry_integers_of_the_six_widths() {
    assert_eq!(ZLESpData::from_buf(&[0xC0, 0x39, 0x30]), Ok(ZLESpData::NormalInt(12345)));
    assert_eq!(ZLESpData::from_buf(&[0xC0, 0xFF, 0xFF]), Ok(ZLESpData::NormalInt(-1)));
    assert_eq!(
        ZLESpData::from_buf(&[0xD0, 0x15, 0xCD, 0x5B, 0x07]),
        Ok(ZLESpData::LargeInt(123_456_789))
    );
    assert_eq!(
        ZLESpData::from_buf(&[0xE0, 0xFE, 0xFF, 0xFF, 0xFF, 0xFF, 0xFF, 0xFF, 0xFF]),
        Ok(ZLESpData::ExLargeInt(-2))
    );
    assert_eq!(
        ZLESpData::from_buf(&[0xF0, 0x00, 0x00, 0x80]),
        Ok(ZLESpData::LargeTrimInt(-8_388_608))
    );
    assert_eq!(
        ZLESpData::from_buf(&[0xF0, 0x01, 0x02, 0x03]),
        Ok(ZLESpData::LargeTrimInt(0x03_0201))
    );
    assert_eq!(ZLESpData::from_buf(&[0xFE, 0x80]), Ok(ZLESpData::SmallInt(-128)));
    assert_eq!(ZLESpData::from_buf(&[0xE1]), Ok(ZLESpData::ExSmallInt(0)));
    assert_eq!(ZLESpData::from_buf(&[0xED, 0x55]), Ok(ZLESpData::ExSmallInt(12)));
}

#[test]
fn entry_integers_report_their_widths_and_texts() {
    assert_eq!(ZLESpData::ExSmallInt(12).shift(), 1);
    assert_eq!(ZLESpData::SmallInt(-1).shift(), 2);
    assert_eq!(ZLESpData::NormalInt(-1).shift(), 3);
    assert_eq!(ZLESpData::LargeTrimInt(-1).shift(), 4);
    assert_eq!(ZLESpData::LargeInt(-1).shift(), 5);
    assert_eq!(ZLESpData::ExLargeInt(-1).shift(), 9);
    assert_eq!(ZLESpData::ExSmallInt(12).into_data(), b"12".to_vec());
    assert_eq!(ZLESpData::SmallInt(-128).into_data(), b"-128".to_vec());
    assert_eq!(ZLESpData::NormalInt(300).into_data(), b"300".to_vec());
    assert_eq!(ZLESpData::LargeTrimInt(-8_388_608).into_data(), b"-8388608".to_vec());
    assert_eq!(ZLESpData::LargeInt(i32::MAX).into_data(), b"2147483647".to_vec());
    assert_eq!(ZLESpData::ExLargeInt(i64::MIN).into_data(), b"-9223372036854775808".to_vec());
}

#[test]
fn entry_integers_cut_short_ask_for_more() {
    assert_eq!(ZLESpData::from_buf(&[0xC0, 0x01]), Err(Error::More));
    assert_eq!(ZLESpData::from_buf(&[0xD0, 0x01, 0x02, 0x03]), Err(Error::More));
    assert_eq!(ZLESpData::from_buf(&[0xE0, 1, 2, 3, 4, 5, 6, 7]), Err(Error::More));
    assert_eq!(ZLESpData::from_buf(&[0xF0, 0x01, 0x02]), Err(Error::More));
    assert_eq!(ZLESpData::from_buf(&[0xFE]), Err(Error::More));
}

#[test]
fn unknown_entry_flags_are_malformed() {
    for flag in [0xC1u8, 0xCF, 0xD1, 0xDF, 0xEE, 0xEF, 0xF1, 0xFD, 0xFF] {
        assert_eq!(
            ZLESpData::from_buf(&[flag, 0, 0, 0, 0, 0, 0, 0, 0, 0]),
            Err(Error::Faild("ziplist entry flag")),
            "flag {:#x}",
            flag
        );
    }
}

#[test]
fn entry_families_exclude_each_other() {
    assert_eq!(ZLESpData::to_str(&[0xC0, 0x01, 0x02]), Err(Error::Other));
    assert_eq!(ZLESpData::to_usual_int(&[0x01, 0x61]), Err(Error::Other));
    assert_eq!(ZLESpData::to_usual_int(&[0xF0, 0x01, 0x02, 0x03]), Err(Error::Other));
    assert_eq!(ZLESpData::to_usual_int(&[0xE1]), Err(Error::Other));
    assert_eq!(ZLESpData::to_special_int(&[0xC0, 0x01, 0x02]), Err(Error::Other));
    assert_eq!(ZLESpData::to_special_int(&[0xE0, 0x01, 0x02]), Err(Error::Other));
    assert_eq!(ZLESpData::to_special_int(&[0xEE]), Err(Error::Other));
    assert_eq!(ZLESpData::to_str(&[]), Err(Error::More));
    assert_eq!(ZLESpData::to_usual_int(&[]), Err(Error::More));
    assert_eq!(ZLESpData::to_special_int(&[]), Err(Error::More));
    assert_eq!(ZLESpData::to_str(&[0x01, 0x61]), Ok(ZLESpData::SmallStr(vec![0x61])));
    assert_eq!(ZLESpData::to_usual_int(&[0xC0, 0x01, 0x00]), Ok(ZLESpData::NormalInt(1)));
    assert_eq!(ZLESpData::to_special_int(&[0xE5]), Ok(ZLESpData::ExSmallInt(4)));
}

#[test]
fn entry_is_previous_length_and_payload() {
    let entry = ZipListEntry::from_buf(&[0xFE, 0x07, 0x00, 0x00, 0x00, 0x01, 0x61, 0x99]).unwrap();
    assert_eq!(entry.prev_len, ZLELen::Large(7));
    assert_eq!(entry.sp, ZLESpData::SmallStr(vec![0x61]));
    assert_eq!(entry.shift(), 7);
    assert_eq!(ZipListEntry::from_buf(&[0x00]), Err(Error::More));
    assert_eq!(ZipListEntry::from_buf(&[0x00, 0xFF]), Err(Error::Faild("ziplist entry flag")));
}

fn sample_ziplist() -> Vec<u8> {
    vec![
        0x10, 0x0A, 0x00, 0x00, 0x00, 0x03, 0x00, 0x00, 0x01, 0x61, 0x03, 0xC0, 0x39, 0x30, 0x04,
        0xE3, 0xFF,
    ]
}

#[test]
fn ziplist_holds_its_entries_before_the_terminator() {
    let mut bytes = sample_ziplist();
    bytes.push(0x77);
    let list = ZipList::from_buf(&bytes).unwrap();
    assert_eq!(list.zlbytes, Length::Small(16));
    assert_eq!(list.zltails, ZipListTail(10));
    assert_eq!(list.zllen, ZipListLen(3));
    assert_eq!(list.entries.len(), 3);
    assert_eq!(list.zlend, 0xFF);
    let w = list.shift();
    assert_eq!(w, 17);
    assert_eq!(7 + list.entries.iter().map(|e| e.shift()).sum::<usize>(), 16);
    assert_eq!(bytes[16], 0xFF);
    assert_eq!(list.zlbytes.length(), 16);
    assert_eq!(ZipList::from_buf(&bytes[..w]), Ok(list.clone()));
    let datas: Vec<Vec<u8>> = list.entries.into_iter().map(|e| e.sp.into_data()).collect();
    assert_eq!(datas, vec![b"a".to_vec(), b"12345".to_vec(), b"2".to_vec()]);
}

#[test]
fn ziplist_cut_short_asks_for_more() {
    let bytes = sample_ziplist();
    for n in 0..bytes.len() {
        assert_eq!(ZipList::from_buf(&bytes[..n]), Err(Error::More), "{} bytes", n);
    }
}

#[test]
fn ziplist_without_its_terminator_is_malformed() {
    let mut bytes = sample_ziplist();
    bytes[16] = 0x00;
    assert_eq!(ZipList::from_buf(&bytes), Err(Error::Faild("ziplist terminator")));
}

#[test]
fn ziplist_that_announces_more_than_it_holds_is_malformed() {
    let mut bytes = sample_ziplist();
    bytes[0] = 20;
    assert_eq!(ZipList::from_buf(&bytes), Err(Error::More));
    bytes.extend_from_slice(&[0; 3]);
    assert_eq!(ZipList::from_buf(&bytes), Err(Error::Faild("ziplist size")));
}

#[test]
fn ziplist_that_announces_less_than_it_holds_is_malformed() {
    assert_eq!(
        ZipList::from_buf(&[0x00, 0, 0, 0, 0, 0, 0, 0xFF]),
        Err(Error::Faild("ziplist size"))
    );
    assert_eq!(
        ZipList::from_buf(&[0x03, 0, 0, 0, 0, 1, 0, 0x00, 0x01, 0x61, 0xFF]),
        Err(Error::Faild("ziplist size"))
    );
    assert!(ZipList::from_buf(&[0x0A, 0, 0, 0, 0, 1, 0, 0x00, 0x01, 0x61, 0xFF]).is_ok());
    let mut bytes = sample_ziplist();
    bytes[0] = 15;
    assert_eq!(ZipList::from_buf(&bytes), Err(Error::Faild("ziplist size")));
    bytes[16] = 0x00;
    assert_eq!(ZipList::from_buf(&bytes), Err(Error::Faild("ziplist terminator")));
}

#[test]
fn empty_ziplist() {
    let list = ZipList::from_buf(&[0x07, 0, 0, 0, 0, 0, 0, 0xFF]).unwrap();
    assert!(list.entries.is_empty());
    assert_eq!(list.shift(), 8);
    assert_eq!(
        ZipList::from_buf(&[0xC0, 0, 0, 0, 0, 0, 0, 0xFF]),
        Err(Error::Faild("not a length"))
    );
}

#[test]
fn intset_header_fields() {
    assert_eq!(IntSetEncoding::from_buf(&[2, 0, 0, 0]), Ok(IntSetEncoding::Normal));
    assert_eq!(IntSetEncoding::from_buf(&[4, 0, 0, 0]), Ok(IntSetEncoding::Large));
    assert_eq!(IntSetEncoding::from_buf(&[8, 0, 0, 0, 9]), Ok(IntSetEncoding::ExLarge));
    assert_eq!(IntSetEncoding::from_buf(&[2, 0, 0]), Err(Error::More));
    assert_eq!(IntSetEncoding::from_buf(&[3, 0, 0, 0]), Err(Error::Faild("intset encoding")));
    assert_eq!(IntSetEncoding::from_buf(&[2, 1, 0, 0]), Err(Error::Faild("intset encoding")));
    assert_eq!(IntSetEncoding::Normal.encoding(), 2);
    assert_eq!(IntSetEncoding::Large.encoding(), 4);
    assert_eq!(IntSetEncoding::ExLarge.encoding(), 8);
    assert_eq!(IntSetEncoding::Large.shift(), 4);
    assert_eq!(IntSetCount::from_buf(&[1, 2, 0, 0]), Ok(IntSetCount(513)));
    assert_eq!(IntSetCount::from_buf(&[1, 2, 0]), Err(Error::More));
    assert_eq!(IntSetCount(7).shift(), 4);
}

#[test]
fn intset_values_are_widened_with_their_sign() {
    assert_eq!(IntSetValue::read(IntSetEncoding::Normal, &[0xFF, 0xFF]), IntSetValue::Normal(-1));
    assert_eq!(
        IntSetValue::read(IntSetEncoding::Large, &[0x00, 0x00, 0x00, 0x80]),
        IntSetValue::Large(i32::MIN)
    );
    assert_eq!(
        IntSetValue::read(IntSetEncoding::ExLarge, &[0xFF; 8]),
        IntSetValue::ExLarge(-1)
    );
    assert_eq!(IntSetValue::Normal(-2).widen(), -2);
    assert_eq!(IntSetValue::Large(-70_000).widen(), -70_000);
    assert_eq!(IntSetValue::ExLarge(i64::MAX).widen(), i64::MAX);
}

#[test]
fn intset_of_each_width() {
    let bytes = [2, 0, 0, 0, 3, 0, 0, 0, 0x00, 0x80, 0xFF, 0xFF, 0xFF, 0x7F, 9];
    let set = IntSet::from_buf(&bytes).unwrap();
    assert_eq!(set.encoding, IntSetEncoding::Normal);
    assert_eq!(set.count, IntSetCount(3));
    assert_eq!(set.ints, vec![-32768, -1, 32767]);
    assert_eq!(set.shift(), 14);
    let set = IntSet::from_buf(&[
        4, 0, 0, 0, 2, 0, 0, 0, 0x00, 0x00, 0x00, 0x80, 0xFF, 0xFF, 0xFF, 0x7F,
    ])
    .unwrap();
    assert_eq!(set.ints, vec![i32::MIN as i64, i32::MAX as i64]);
    assert_eq!(set.shift(), 16);
    let mut bytes = vec![8, 0, 0, 0, 2, 0, 0, 0];
    bytes.extend_from_slice(&i64::MIN.to_le_bytes());
    bytes.extend_from_slice(&i64::MAX.to_le_bytes());
    let set = IntSet::from_buf(&bytes).unwrap();
    assert_eq!(set.ints, vec![i64::MIN, i64::MAX]);
    assert_eq!(set.shift(), 24);
}

#[test]
fn intset_cut_short_asks_for_more_and_its_width_is_enough() {
    let bytes = [4, 0, 0, 0, 2, 0, 0, 0, 1, 0, 0, 0, 2, 0, 0, 0, 0x55];
    let set = IntSet::from_buf(&bytes).unwrap();
    let w = set.shift();
    assert_eq!(w, 16);
    assert_eq!(IntSet::from_buf(&bytes[..w]), Ok(set));
    for n in 0..w {
        assert_eq!(IntSet::from_buf(&bytes[..n]), Err(Error::More), "{} bytes", n);
    }
    let empty = IntSet::from_buf(&[2, 0, 0, 0, 0, 0, 0, 0]).unwrap();
    assert!(empty.ints.is_empty());
    assert_eq!(empty.shift(), 8);
}
