//! The command that a record stands for.

use crate::codec::intset::IntSet;
use crate::codec::list::{HashItem, HashItemView, LinkedListItem, RedisList, ZSetItem, ZSetItemView};
use crate::codec::string::{RedisStringView};
use crate::codec::ziplist::{ZipList, ZipListEntry, ZipListEntryView};
use crate::com::{lemma_views_push, views, Error, FromBuf};
use crate::decimal::{decimal, decimal_bytes, is_decimal_float, is_float_text};
use crate::fmt::{lemma_split_one, no_sentinel, split_groups, RedisFmt, RedisFmtView, RedisFormat};
use crate::types::data::{RedisData, RedisDataView};
use vstd::prelude::*;

verus! {

/// Each string as one argument.
pub open spec fn string_args(items: Seq<RedisStringView>) -> Seq<RedisFmtView> {
    Seq::new(items.len(), |i: int| RedisFmtView::Raw(items[i].bytes()))
}

/// Each item of a sorted set as two arguments, the score before the member.
pub open spec fn zset_args(items: Seq<ZSetItemView>) -> Seq<RedisFmtView> {
    Seq::new(
        2 * items.len(),
        |i: int|
            if i % 2 == 0 {
                RedisFmtView::Raw(items[i / 2].score.bytes())
            } else {
                RedisFmtView::Raw(items[i / 2].member.bytes())
            },
    )
}

/// Each item of a hash as two arguments, the field before the value.
pub open spec fn hash_args(items: Seq<HashItemView>) -> Seq<RedisFmtView> {
    Seq::new(
        2 * items.len(),
        |i: int|
            if i % 2 == 0 {
                RedisFmtView::Raw(items[i / 2].key.bytes())
            } else {
                RedisFmtView::Raw(items[i / 2].value.bytes())
            },
    )
}

/// Each integer as one argument, in decimal text.
pub open spec fn int_args(ints: Seq<i64>) -> Seq<RedisFmtView> {
    Seq::new(ints.len(), |i: int| RedisFmtView::Raw(decimal(ints[i] as int)))
}

/// Each entry of a ziplist as one argument.
pub open spec fn entry_args(entries: Seq<ZipListEntryView>) -> Seq<RedisFmtView> {
    Seq::new(entries.len(), |i: int| RedisFmtView::Raw(entries[i].sp.bytes()))
}

/// The entries of a ziplist that holds a sorted set come in pairs of a member
/// and its score, and each score is the text of a floating-point number.
pub open spec fn scores_ok(entries: Seq<ZipListEntryView>) -> bool {
    &&& entries.len() % 2 == 0
    &&& forall|i: int|
        0 <= i < entries.len() && i % 2 == 1 ==> is_decimal_float(#[trigger] entries[i].sp.bytes())
}

/// The entries of a ziplist that holds a sorted set, each score moved before
/// its member.
pub open spec fn scored_args(entries: Seq<ZipListEntryView>) -> Seq<RedisFmtView> {
    Seq::new(
        entries.len(),
        |i: int|
            if i % 2 == 0 {
                RedisFmtView::Raw(entries[i + 1].sp.bytes())
            } else {
                RedisFmtView::Raw(entries[i - 1].sp.bytes())
            },
    )
}

/// What decoding a value inside a string comes to: input that is cut short
/// there will never be completed, so it is malformed.
pub open spec fn nested<T>(r: Result<T, Error>) -> Result<T, Error> {
    match r {
        Err(Error::More) => Err(Error::Faild("nested value")),
        _ => r,
    }
}

/// A command: its name, the key, and the other arguments.
pub open spec fn argv(name: Seq<char>, key: RedisStringView, args: Seq<RedisFmtView>) -> Seq<
    RedisFmtView,
> {
    seq![RedisFmtView::Cmd(name), RedisFmtView::Raw(key.bytes())] + args
}

/// Whether each of `args` is an argument.
pub open spec fn all_raw(args: Seq<RedisFmtView>) -> bool {
    forall|i: int| 0 <= i < args.len() ==> #[trigger] args[i] is Raw
}

/// A command made of a name, a key and arguments holds no sentinel.
pub proof fn lemma_argv_no_sentinel(name: Seq<char>, key: RedisStringView, args: Seq<RedisFmtView>)
    requires
        all_raw(args),
    ensures
        no_sentinel(argv(name, key, args)),
{
    let all = argv(name, key, args);
    assert forall|i: int| 0 <= i < all.len() implies !(#[trigger] all[i] is CRLF) by {
        if i >= 2 {
            assert(all[i] == args[i - 2]);
        }
    }
}

impl RedisDataView {
    /// The command that rebuilds the record: `SET`, `LPUSH`, `SADD`, `ZADD`
    /// or `HSET` for the plain values, `RPUSH` for a list in a ziplist. A
    /// ziplist or an intset is taken apart first, and a sorted set in a
    /// ziplist must hold a score behind each member.
    pub open spec fn command(self) -> Result<Seq<RedisFmtView>, Error> {
        match self {
            RedisDataView::String(key, v) => Ok(
                argv("SET"@, key, seq![RedisFmtView::Raw(v.bytes())]),
            ),
            RedisDataView::List(key, v) => Ok(argv("LPUSH"@, key, string_args(v.items))),
            RedisDataView::Sets(key, v) => Ok(argv("SADD"@, key, string_args(v.items))),
            RedisDataView::ZSet(key, v) => Ok(argv("ZADD"@, key, zset_args(v.items))),
            RedisDataView::Hash(key, v) => Ok(argv("HSET"@, key, hash_args(v.items))),
            RedisDataView::SetIntSet(key, v) => match nested(IntSet::decode(v.bytes())) {
                Err(e) => Err(e),
                Ok(set) => Ok(argv("SADD"@, key, int_args(set.ints))),
            },
            RedisDataView::ListZipList(key, v) => match nested(ZipList::decode(v.bytes())) {
                Err(e) => Err(e),
                Ok(list) => Ok(argv("RPUSH"@, key, entry_args(list.entries))),
            },
            RedisDataView::HashZipList(key, v) => match nested(ZipList::decode(v.bytes())) {
                Err(e) => Err(e),
                Ok(list) => Ok(argv("HSET"@, key, entry_args(list.entries))),
            },
            RedisDataView::ZSetZipList(key, v) => match nested(ZipList::decode(v.bytes())) {
                Err(e) => Err(e),
                Ok(list) => if scores_ok(list.entries) {
                    Ok(argv("ZADD"@, key, scored_args(list.entries)))
                } else {
                    Err(Error::Faild("zset score"))
                },
            },
        }
    }
}

/// One more string adds one argument.
pub proof fn lemma_string_args_push(items: Seq<RedisStringView>, item: RedisStringView)
    ensures
        string_args(items.push(item)) == string_args(items).push(RedisFmtView::Raw(item.bytes())),
{
    assert(string_args(items.push(item)) =~= string_args(items).push(
        RedisFmtView::Raw(item.bytes()),
    ));
}

/// One more item of a sorted set adds its score and its member.
pub proof fn lemma_zset_args_push(items: Seq<ZSetItemView>, item: ZSetItemView)
    ensures
        zset_args(items.push(item)) == zset_args(items).push(
            RedisFmtView::Raw(item.score.bytes()),
        ).push(RedisFmtView::Raw(item.member.bytes())),
{
    assert(zset_args(items.push(item)) =~= zset_args(items).push(
        RedisFmtView::Raw(item.score.bytes()),
    ).push(RedisFmtView::Raw(item.member.bytes())));
}

/// One more item of a hash adds its field and its value.
pub proof fn lemma_hash_args_push(items: Seq<HashItemView>, item: HashItemView)
    ensures
        hash_args(items.push(item)) == hash_args(items).push(
            RedisFmtView::Raw(item.key.bytes()),
        ).push(RedisFmtView::Raw(item.value.bytes())),
{
    assert(hash_args(items.push(item)) =~= hash_args(items).push(
        RedisFmtView::Raw(item.key.bytes()),
    ).push(RedisFmtView::Raw(item.value.bytes())));
}

/// One more integer adds one argument.
pub proof fn lemma_int_args_push(ints: Seq<i64>, v: i64)
    ensures
        int_args(ints.push(v)) == int_args(ints).push(RedisFmtView::Raw(decimal(v as int))),
{
    assert(int_args(ints.push(v)) =~= int_args(ints).push(RedisFmtView::Raw(decimal(v as int))));
}

/// One more entry adds one argument.
pub proof fn lemma_entry_args_push(entries: Seq<ZipListEntryView>, entry: ZipListEntryView)
    ensures
        entry_args(entries.push(entry)) == entry_args(entries).push(
            RedisFmtView::Raw(entry.sp.bytes()),
        ),
{
    assert(entry_args(entries.push(entry)) =~= entry_args(entries).push(
        RedisFmtView::Raw(entry.sp.bytes()),
    ));
}

impl RedisDataView {
    /// The command of a record holds no sentinel, so it is cut as one command.
    pub proof fn lemma_command_is_one(self)
        ensures
            self.command() matches Ok(argv) ==> no_sentinel(argv) && split_groups(
                argv.push(RedisFmtView::CRLF),
            ) == seq![argv],
    {
        if let Ok(all) = self.command() {
            match self {
                RedisDataView::String(key, v) => {
                    lemma_argv_no_sentinel("SET"@, key, seq![RedisFmtView::Raw(v.bytes())]);
                },
                RedisDataView::List(key, v) => {
                    lemma_argv_no_sentinel("LPUSH"@, key, string_args(v.items));
                },
                RedisDataView::Sets(key, v) => {
                    lemma_argv_no_sentinel("SADD"@, key, string_args(v.items));
                },
                RedisDataView::ZSet(key, v) => {
                    lemma_argv_no_sentinel("ZADD"@, key, zset_args(v.items));
                },
                RedisDataView::Hash(key, v) => {
                    lemma_argv_no_sentinel("HSET"@, key, hash_args(v.items));
                },
                RedisDataView::SetIntSet(key, v) => {
                    let set = IntSet::decode(v.bytes())->Ok_0;
                    lemma_argv_no_sentinel("SADD"@, key, int_args(set.ints));
                },
                RedisDataView::ListZipList(key, v) => {
                    let list = ZipList::decode(v.bytes())->Ok_0;
                    lemma_argv_no_sentinel("RPUSH"@, key, entry_args(list.entries));
                },
                RedisDataView::HashZipList(key, v) => {
                    let list = ZipList::decode(v.bytes())->Ok_0;
                    lemma_argv_no_sentinel("HSET"@, key, entry_args(list.entries));
                },
                RedisDataView::ZSetZipList(key, v) => {
                    let list = ZipList::decode(v.bytes())->Ok_0;
                    lemma_argv_no_sentinel("ZADD"@, key, scored_args(list.entries));
                },
            }
            lemma_split_one(all);
        }
    }
}

/// Appends each string as one argument.
fn push_strings(items: Vec<LinkedListItem>, out: &mut Vec<RedisFmt>)
    ensures
        views(final(out)@) == views(old(out)@) + string_args(views(items@)),
{
    let ghost before = views(out@);
    let ghost all = views(items@);
    assert(before =~= before + string_args(all.take(0)));
    for item in it: items
        invariant
            it.seq() == items@,
            all == views(items@),
            views(out@) == before + string_args(all.take(it.index() as int)),
    {
        let ghost i = it.index() as int;
        let ghost prev = out@;
        out.push(RedisFmt::Raw(item.0.into_data()));
        proof {
            let seen = all.take(i);
            assert(all.take(i + 1) =~= seen.push(all[i]));
            lemma_string_args_push(seen, all[i]);
            lemma_views_push(prev, out@[prev.len() as int]);
            assert(views(out@) =~= before + string_args(seen.push(all[i])));
        }
    }
    assert(all.take(items@.len() as int) =~= all);
}

/// Appends each item of a sorted set, the score before the member.
fn push_zset(items: Vec<ZSetItem>, out: &mut Vec<RedisFmt>)
    ensures
        views(final(out)@) == views(old(out)@) + zset_args(views(items@)),
{
    let ghost before = views(out@);
    let ghost all = views(items@);
    assert(before =~= before + zset_args(all.take(0)));
    for item in it: items
        invariant
            it.seq() == items@,
            all == views(items@),
            views(out@) == before + zset_args(all.take(it.index() as int)),
    {
        let ghost i = it.index() as int;
        let ghost prev = out@;
        let ZSetItem { member, score } = item;
        out.push(RedisFmt::Raw(score.into_data()));
        out.push(RedisFmt::Raw(member.into_data()));
        proof {
            let seen = all.take(i);
            assert(all.take(i + 1) =~= seen.push(all[i]));
            lemma_zset_args_push(seen, all[i]);
            let first = out@[prev.len() as int];
            let second = out@[prev.len() as int + 1];
            assert(out@ =~= prev.push(first).push(second));
            lemma_views_push(prev, first);
            lemma_views_push(prev.push(first), second);
            assert(views(out@) =~= before + zset_args(seen.push(all[i])));
        }
    }
    assert(all.take(items@.len() as int) =~= all);
}

/// Appends each item of a hash, the field before the value.
fn push_hash(items: Vec<HashItem>, out: &mut Vec<RedisFmt>)
    ensures
        views(final(out)@) == views(old(out)@) + hash_args(views(items@)),
{
    let ghost before = views(out@);
    let ghost all = views(items@);
    assert(before =~= before + hash_args(all.take(0)));
    for item in it: items
        invariant
            it.seq() == items@,
            all == views(items@),
            views(out@) == before + hash_args(all.take(it.index() as int)),
    {
        let ghost i = it.index() as int;
        let ghost prev = out@;
        let HashItem { key: hkey, value } = item;
        out.push(RedisFmt::Raw(hkey.into_data()));
        out.push(RedisFmt::Raw(value.into_data()));
        proof {
            let seen = all.take(i);
            assert(all.take(i + 1) =~= seen.push(all[i]));
            lemma_hash_args_push(seen, all[i]);
            let first = out@[prev.len() as int];
            let second = out@[prev.len() as int + 1];
            assert(out@ =~= prev.push(first).push(second));
            lemma_views_push(prev, first);
            lemma_views_push(prev.push(first), second);
            assert(views(out@) =~= before + hash_args(seen.push(all[i])));
        }
    }
    assert(all.take(items@.len() as int) =~= all);
}

/// Appends each integer in decimal text.
fn push_ints(ints: Vec<i64>, out: &mut Vec<RedisFmt>)
    ensures
        views(final(out)@) == views(old(out)@) + int_args(ints@),
{
    let ghost before = views(out@);
    assert(before =~= before + int_args(ints@.take(0)));
    for intv in it: ints
        invariant
            it.seq() == ints@,
            views(out@) == before + int_args(ints@.take(it.index() as int)),
    {
        let ghost i = it.index() as int;
        let ghost prev = out@;
        out.push(RedisFmt::Raw(decimal_bytes(intv)));
        proof {
            let seen = ints@.take(i);
            assert(ints@.take(i + 1) =~= seen.push(ints@[i]));
            lemma_int_args_push(seen, ints@[i]);
            lemma_views_push(prev, out@[prev.len() as int]);
            assert(views(out@) =~= before + int_args(seen.push(ints@[i])));
        }
    }
    assert(ints@.take(ints@.len() as int) =~= ints@);
}

/// Appends each entry of a ziplist as one argument.
fn push_entries(entries: Vec<ZipListEntry>, out: &mut Vec<RedisFmt>)
    ensures
        views(final(out)@) == views(old(out)@) + entry_args(views(entries@)),
{
    let ghost before = views(out@);
    let ghost all = views(entries@);
    assert(before =~= before + entry_args(all.take(0)));
    for entry in it: entries
        invariant
            it.seq() == entries@,
            all == views(entries@),
            views(out@) == before + entry_args(all.take(it.index() as int)),
    {
        let ghost i = it.index() as int;
        let ghost prev = out@;
        out.push(RedisFmt::Raw(entry.sp.into_data()));
        proof {
            let seen = all.take(i);
            assert(all.take(i + 1) =~= seen.push(all[i]));
            lemma_entry_args_push(seen, all[i]);
            lemma_views_push(prev, out@[prev.len() as int]);
            assert(views(out@) =~= before + entry_args(seen.push(all[i])));
        }
    }
    assert(all.take(entries@.len() as int) =~= all);
}

/// Appends the entries of a ziplist that holds a sorted set, each score
/// before its member, unless a score is missing or is no number.
fn push_scored(entries: Vec<ZipListEntry>, out: &mut Vec<RedisFmt>) -> (r: Result<(), Error>)
    ensures
        r is Ok ==> (scores_ok(views(entries@)) && views(final(out)@) == views(old(out)@)
            + scored_args(views(entries@))),
        r matches Err(e) ==> (!scores_ok(views(entries@)) && e == Error::Faild("zset score")),
{
    let ghost before = views(out@);
    let ghost all = views(entries@);
    if entries.len() % 2 != 0 {
        return Err(Error::Faild("zset score"));
    }
    let mut member: Option<Vec<u8>> = None;
    assert(before =~= before + scored_args(all).take(0));
    for entry in it: entries
        invariant
            it.seq() == entries@,
            all == views(entries@),
            all.len() % 2 == 0,
            forall|j: int|
                0 <= j < it.index() && j % 2 == 1 ==> is_decimal_float(
                    #[trigger] all[j].sp.bytes(),
                ),
            it.index() % 2 == 0 ==> (member is None && views(out@) == before + scored_args(
                all,
            ).take(it.index() as int)),
            it.index() % 2 == 1 ==> (member matches Some(m) && m@ == all[it.index() - 1].sp.bytes()
                && views(out@) == before + scored_args(all).take(it.index() - 1)),
    {
        let ghost i = it.index() as int;
        let data = entry.sp.into_data();
        let held = member;
        match held {
            None => {
                member = Some(data);
            },
            Some(m) => {
                if !is_float_text(data.as_slice()) {
                    return Err(Error::Faild("zset score"));
                }
                let ghost prev = out@;
                out.push(RedisFmt::Raw(data));
                out.push(RedisFmt::Raw(m));
                member = None;
                proof {
                    let first = out@[prev.len() as int];
                    let second = out@[prev.len() as int + 1];
                    assert(out@ =~= prev.push(first).push(second));
                    lemma_views_push(prev, first);
                    lemma_views_push(prev.push(first), second);
                    assert(scored_args(all).take(i + 1) =~= scored_args(all).take(i - 1).push(
                        first@,
                    ).push(second@));
                    assert(views(out@) =~= before + scored_args(all).take(i + 1));
                }
            },
        }
    }
    assert(scored_args(all).take(entries@.len() as int) =~= scored_args(all));
    Ok(())
}

impl RedisFormat for RedisData {
    /// The command of the record and the sentinel behind it. The instant does
    /// not matter.
    open spec fn formatted(v: RedisDataView, now: int) -> Result<Seq<RedisFmtView>, Error> {
        match v.command() {
            Err(e) => Err(e),
            Ok(argv) => Ok(argv.push(RedisFmtView::CRLF)),
        }
    }

    fn fmt(self, now: u64, buf: &mut Vec<RedisFmt>) -> (r: Result<usize, Error>) {
        let ghost v = self@;
        let mut out: Vec<RedisFmt> = Vec::new();
        match self {
            RedisData::String(key, rs) => {
                out.push(RedisFmt::Cmd("SET"));
                out.push(RedisFmt::Raw(key.into_data()));
                out.push(RedisFmt::Raw(rs.into_data()));
                proof {
                    lemma_argv_no_sentinel("SET"@, key@, seq![RedisFmtView::Raw(rs@.bytes())]);
                }
            },
            RedisData::List(key, rl) => {
                out.push(RedisFmt::Cmd("LPUSH"));
                out.push(RedisFmt::Raw(key.into_data()));
                let RedisList { items, .. } = rl;
                push_strings(items, &mut out);
                proof {
                    lemma_argv_no_sentinel("LPUSH"@, key@, string_args(views(items@)));
                }
            },
            RedisData::Sets(key, rs) => {
                out.push(RedisFmt::Cmd("SADD"));
                out.push(RedisFmt::Raw(key.into_data()));
                let RedisList { items, .. } = rs;
                push_strings(items, &mut out);
                proof {
                    lemma_argv_no_sentinel("SADD"@, key@, string_args(views(items@)));
                }
            },
            RedisData::ZSet(key, RedisList { items, .. }) => {
                out.push(RedisFmt::Cmd("ZADD"));
                out.push(RedisFmt::Raw(key.into_data()));
                push_zset(items, &mut out);
                proof {
                    lemma_argv_no_sentinel("ZADD"@, key@, zset_args(views(items@)));
                }
            },
            RedisData::Hash(key, RedisList { items, .. }) => {
                out.push(RedisFmt::Cmd("HSET"));
                out.push(RedisFmt::Raw(key.into_data()));
                push_hash(items, &mut out);
                proof {
                    lemma_argv_no_sentinel("HSET"@, key@, hash_args(views(items@)));
                }
            },
            RedisData::SetIntSet(key, rs) => {
                let intset_buf = rs.into_data();
                let IntSet { ints, .. } = match IntSet::from_buf(intset_buf.as_slice()) {
                    Ok(set) => set,
                    Err(Error::More) => return Err(Error::Faild("nested value")),
                    Err(e) => return Err(e),
                };
                out.push(RedisFmt::Cmd("SADD"));
                out.push(RedisFmt::Raw(key.into_data()));
                push_ints(ints, &mut out);
                proof {
                    lemma_argv_no_sentinel("SADD"@, key@, int_args(ints@));
                }
            },
            RedisData::ListZipList(key, rs) => {
                let local_buf = rs.into_data();
                let ZipList { entries, .. } = match ZipList::from_buf(local_buf.as_slice()) {
                    Ok(list) => list,
                    Err(Error::More) => return Err(Error::Faild("nested value")),
                    Err(e) => return Err(e),
                };
                out.push(RedisFmt::Cmd("RPUSH"));
                out.push(RedisFmt::Raw(key.into_data()));
                push_entries(entries, &mut out);
                proof {
                    lemma_argv_no_sentinel("RPUSH"@, key@, entry_args(views(entries@)));
                }
            },
            RedisData::HashZipList(key, rs) => {
                let local_buf = rs.into_data();
                let ZipList { entries, .. } = match ZipList::from_buf(local_buf.as_slice()) {
                    Ok(list) => list,
                    Err(Error::More) => return Err(Error::Faild("nested value")),
                    Err(e) => return Err(e),
                };
                out.push(RedisFmt::Cmd("HSET"));
                out.push(RedisFmt::Raw(key.into_data()));
                push_entries(entries, &mut out);
                proof {
                    lemma_argv_no_sentinel("HSET"@, key@, entry_args(views(entries@)));
                }
            },
            RedisData::ZSetZipList(key, rs) => {
                let local_buf = rs.into_data();
                let ZipList { entries, .. } = match ZipList::from_buf(local_buf.as_slice()) {
                    Ok(list) => list,
                    Err(Error::More) => return Err(Error::Faild("nested value")),
                    Err(e) => return Err(e),
                };
                out.push(RedisFmt::Cmd("ZADD"));
                out.push(RedisFmt::Raw(key.into_data()));
                match push_scored(entries, &mut out) {
                    Ok(()) => {},
                    Err(e) => return Err(e),
                }
                proof {
                    lemma_argv_no_sentinel("ZADD"@, key@, scored_args(views(entries@)));
                }
            },
        }
        let ghost argv = v.command()->Ok_0;
        assert(views(out@) =~= argv);
        out.push(RedisFmt::CRLF);
        proof {
            lemma_split_one(argv);
            assert(views(out@) =~= argv.push(RedisFmtView::CRLF));
            assert(views(buf@ + out@) =~= views(buf@) + views(out@));
        }
        buf.append(&mut out);
        Ok(1)
    }
}

} // verus!
