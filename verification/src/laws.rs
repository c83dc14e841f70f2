//! What holds of the decoders and of the machine on every input.

use crate::codec::intset::IntSet;
use crate::codec::length::Length;
use crate::codec::list::{items_apply, items_len, lemma_decode_items_fits, RedisList};
use crate::codec::string::{RedisString, RedisStringView};
use crate::codec::ziplist::{ZipList, ZipListEntry, ZipListLen};
use crate::com::{be_u16, be_u32, Error, FromBuf, Settled, Shift};
use crate::entry::{RdbEntry, RdbEntryView};
use crate::fmt::{
    join_groups, lemma_scan_append, lemma_split_one, no_sentinel, scan, split_groups, RedisFmtView,
    RedisFormat,
};
use crate::parser::{
    end_after, lemma_run_extend, lemma_run_stops, lemma_step_extend, lemma_step_prefix,
    lemma_step_progress, lemma_step_short, project_all, read_outcome, run, step, ParserView, State,
    Step,
};
use crate::types::data::{item_decoders_apply, record_decoder_applies, RedisData, RedisDataView};
use crate::types::expire::ExpireTime;
use vstd::prelude::*;

verus! {

/// Width accounting. A value that is decoded from `s` lies within `s`; it
/// is decoded again, the same, from the bytes of `s` that make up its width;
/// and from one byte less nothing is decoded: the decoder asks for more.
pub proof fn width_accounting<T: FromBuf>(s: Seq<u8>)
    requires
        T::decode(s) is Ok,
    ensures
        ({
            let w = T::wire_len(T::decode(s)->Ok_0) as int;
            &&& w <= s.len()
            &&& T::decode(s.take(w)) == T::decode(s)
            &&& w >= 1 ==> T::decode(s.take(w - 1)) == Err::<T::V, Error>(Error::More)
        }),
{
    let w = T::wire_len(T::decode(s)->Ok_0) as int;
    T::lemma_decode_fits(s);
    T::lemma_decode_prefix(s, w);
    if w >= 1 {
        T::lemma_decode_short(s);
    }
}

/// Width accounting for the entries of the envelope. An entry that the
/// machine decodes in `state` from `s` is decoded again, the same, from the
/// bytes of `s` that make up its width, and from one byte less the machine
/// makes no move and asks for more.
pub proof fn entry_width_accounting(state: State, s: Seq<u8>)
    requires
        step(state, s) matches Ok(Step::Emit(_, _)),
    ensures
        ({
            let w = RdbEntry::wire_len(step(state, s)->Ok_0->Emit_0) as int;
            &&& 1 <= w <= s.len()
            &&& step(state, s.take(w)) == step(state, s)
            &&& step(state, s.take(w - 1)) == Err::<Step, Error>(Error::More)
        }),
{
    let w = RdbEntry::wire_len(step(state, s)->Ok_0->Emit_0) as int;
    lemma_step_progress(state, s);
    lemma_step_prefix(state, s, w);
    lemma_step_short(state, s);
}

/// More input. A value that is decoded stays as it is when bytes are added
/// behind the input, and so does a move that the machine makes.
pub proof fn more_input_keeps_what_was_decoded<T: Settled>(
    s: Seq<u8>,
    more: Seq<u8>,
    state: State,
)
    ensures
        T::decode(s) is Ok ==> T::decode(s + more) == T::decode(s),
        step(state, s) is Ok ==> step(state, s + more) == step(state, s),
{
    if T::decode(s) is Ok {
        T::lemma_decode_extend(s, more);
    }
    if step(state, s) is Ok {
        lemma_step_extend(state, s, more);
    }
}

/// Determinism. What is decoded depends on the bytes alone: equal inputs
/// decode to equal values or fail with equal errors, and the machine runs
/// over them alike.
pub proof fn decode_is_deterministic<T: FromBuf>(a: Seq<u8>, b: Seq<u8>, state: State, end: Seq<u8>)
    requires
        a =~= b,
    ensures
        T::decode(a) == T::decode(b),
        step(state, a) == step(state, b),
        run(state, a, end) == run(state, b, end),
{
}

/// Container length. A container that is decoded holds as many items as
/// its header counts, and its width is the width of the header and the sum
/// of the widths of the items.
pub proof fn container_length<I: FromBuf>(s: Seq<u8>)
    requires
        RedisList::<I>::decode(s) is Ok,
    ensures
        ({
            let list = RedisList::<I>::decode(s)->Ok_0;
            &&& list.items.len() == list.length.value()
            &&& RedisList::<I>::wire_len(list) == Length::wire_len(list.length) + items_len::<I>(
                list.items,
            )
            &&& RedisList::<I>::wire_len(list) <= s.len()
        }),
{
    let length = Length::decode(s)->Ok_0;
    lemma_decode_items_fits::<I>(s.skip(Length::wire_len(length) as int), length.value());
    RedisList::<I>::lemma_decode_fits(s);
}

/// Ziplist size. A ziplist that is decoded holds as many entries as its
/// header counts; the size that its header announces is the width of the
/// header and the sum of the widths of the entries; and the byte at that
/// offset is `0xFF`.
pub proof fn ziplist_announced_size(s: Seq<u8>)
    requires
        ZipList::decode(s) is Ok,
    ensures
        ({
            let list = ZipList::decode(s)->Ok_0;
            &&& list.entries.len() == list.zllen.0
            &&& list.zlbytes.value() == list.header_len() + items_len::<ZipListEntry>(
                list.entries,
            )
            &&& list.zlbytes.value() < s.len()
            &&& s[list.zlbytes.value() as int] == 0xFF
            &&& list.zlend == 0xFF
            &&& ZipList::wire_len(list) == list.zlbytes.value() + 1
        }),
{
    let zlbytes = Length::decode(s)->Ok_0;
    let at = Length::wire_len(zlbytes) as int;
    let zllen = ZipList::decode(s)->Ok_0.zllen;
    lemma_decode_items_fits::<ZipListEntry>(s.skip(at + 6), zllen.0 as nat);
}

/// Length masking. A decoded length lies within the bits of its form: six,
/// fourteen or thirty.
pub proof fn length_masking(s: Seq<u8>)
    ensures
        Length::decode(s) matches Ok(Length::Small(v)) ==> v <= 0x3F,
        Length::decode(s) matches Ok(Length::Normal(v)) ==> v <= 0x3FFF,
        Length::decode(s) matches Ok(Length::Large(v)) ==> v <= 0x3FFF_FFFF,
{
}

/// Payload lengths. A string that is decoded holds as many bytes as its
/// header announces: behind a length, that many bytes; compressed, a payload
/// that decompresses to exactly the original length.
pub proof fn string_payload_length(s: Seq<u8>)
    ensures
        RedisString::decode(s) matches Ok(RedisStringView::LengthPrefix { len, data })
            ==> data.len() == len.value() && len.wf(),
        RedisString::decode(s) matches Ok(RedisStringView::LZF(v)) ==> v.buf.len()
            == v.original_len.value() && v.compressed_len.wf() && v.original_len.wf(),
{
}

/// Intset widening. Each integer of a decoded intset is a number that the
/// width of the set can hold: sixteen, thirty-two or sixty-four bits in
/// two's complement. The set holds as many integers as its header counts.
pub proof fn intset_widening(s: Seq<u8>)
    requires
        IntSet::decode(s) is Ok,
    ensures
        ({
            let set = IntSet::decode(s)->Ok_0;
            &&& set.ints.len() == set.count.0
            &&& forall|i: int|
                0 <= i < set.ints.len() ==> set.encoding.holds(#[trigger] set.ints[i] as int)
        }),
{
}

/// The header that carries the length `n` in the shortest form.
pub open spec fn length_header(n: nat) -> Seq<u8> {
    if n < 0x40 {
        seq![n as u8]
    } else if n < 0x4000 {
        seq![(0x40 + n / 0x100) as u8, (n % 0x100) as u8]
    } else {
        seq![
            0x80u8,
            (n / 0x100_0000) as u8,
            (n / 0x1_0000 % 0x100) as u8,
            (n / 0x100 % 0x100) as u8,
            (n % 0x100) as u8,
        ]
    }
}

/// The bytes of a string that is stored as it is: its length, then itself.
pub open spec fn plain_string(payload: Seq<u8>) -> Seq<u8> {
    length_header(payload.len()) + payload
}

/// A length in its shortest form decodes to itself, whatever follows.
pub proof fn length_header_decodes(n: nat, rest: Seq<u8>)
    requires
        n < 0x4000_0000,
    ensures
        Length::decode(length_header(n) + rest) matches Ok(len) && len.value() == n
            && Length::wire_len(len) == length_header(n).len(),
{
    let s = length_header(n) + rest;
    if n < 0x40 {
        assert(s[0] == n);
    } else if n < 0x4000 {
        assert(s[0] == 0x40 + n / 0x100);
        assert(s[1] == n % 0x100);
        assert(be_u16(s) == 0x4000 + n);
    } else {
        let x = n as u32;
        assert(0x100_0000 * (x / 0x100_0000) + 0x1_0000 * (x / 0x1_0000 % 0x100) + 0x100 * (x
            / 0x100 % 0x100) + x % 0x100 == x && x / 0x100_0000 < 0x100) by (bit_vector);
        let t = s.skip(1);
        assert(s[0] == 0x80);
        assert(t[0] == n / 0x100_0000);
        assert(t[1] == n / 0x1_0000 % 0x100);
        assert(t[2] == n / 0x100 % 0x100);
        assert(t[3] == n % 0x100);
        assert(be_u32(t) == n);
    }
}

/// A string that is stored as it is decodes to itself, whatever follows.
pub proof fn plain_string_decodes(payload: Seq<u8>, rest: Seq<u8>)
    requires
        payload.len() < 0x4000_0000,
    ensures
        RedisString::decode(plain_string(payload) + rest) matches Ok(
            RedisStringView::LengthPrefix { len, data },
        ) && data == payload && len.value() == payload.len() && Length::wire_len(len)
            == length_header(payload.len()).len(),
{
    let n = payload.len();
    let s = plain_string(payload) + rest;
    assert(s =~= length_header(n) + (payload + rest));
    length_header_decodes(n, payload + rest);
    let len = Length::decode(s)->Ok_0;
    let start = Length::wire_len(len) as int;
    assert(s.subrange(start, start + n) =~= payload);
    assert(RedisStringView::decode_length_prefix(s) == Ok::<RedisStringView, Error>(
        RedisStringView::LengthPrefix { len, data: payload },
    ));
}

/// A type byte of zero before a key and a string makes a record of type
/// string.
pub proof fn string_record_decodes(s: Seq<u8>, key: RedisStringView, value: RedisStringView)
    requires
        s.len() >= 1,
        s[0] == 0,
        RedisString::decode(s.skip(1)) == Ok::<RedisStringView, Error>(key),
        RedisString::decode(s.skip(1 + RedisString::wire_len(key) as int)) == Ok::<
            RedisStringView,
            Error,
        >(value),
    ensures
        RedisData::decode(s) == Ok::<RedisDataView, Error>(RedisDataView::String(key, value)),
{
    reveal(RedisDataView::decode_value);
}

/// A record of type string whose key and value are stored as they are
/// decodes to that key and that value.
pub proof fn plain_record_decodes(key: Seq<u8>, value: Seq<u8>, rest: Seq<u8>)
    requires
        key.len() < 0x4000_0000,
        value.len() < 0x4000_0000,
    ensures
        RedisData::decode(seq![0u8] + plain_string(key) + plain_string(value) + rest) matches Ok(
            RedisDataView::String(k, v),
        ) && k.bytes() == key && v.bytes() == value,
{
    let s = seq![0u8] + plain_string(key) + plain_string(value) + rest;
    let behind_key = plain_string(value) + rest;
    assert(s.skip(1) =~= plain_string(key) + behind_key);
    plain_string_decodes(key, behind_key);
    let k = RedisString::decode(s.skip(1))->Ok_0;
    let at = 1 + RedisString::wire_len(k) as int;
    assert(at == 1 + plain_string(key).len());
    assert(s.skip(at) =~= plain_string(value) + rest);
    plain_string_decodes(value, rest);
    let v = RedisString::decode(s.skip(at))->Ok_0;
    string_record_decodes(s, k, v);
}

/// A record of type string is written as the command `SET` with its key
/// and its value.
pub proof fn string_record_command(key: RedisStringView, value: RedisStringView, now: int)
    ensures
        RedisData::formatted(RedisDataView::String(key, value), now) == Ok::<
            Seq<RedisFmtView>,
            Error,
        >(
            seq![
                RedisFmtView::Cmd("SET"@),
                RedisFmtView::Raw(key.bytes()),
                RedisFmtView::Raw(value.bytes()),
                RedisFmtView::CRLF,
            ],
        ),
{
    let argv = RedisDataView::String(key, value).command()->Ok_0;
    assert(argv.push(RedisFmtView::CRLF) =~= seq![
        RedisFmtView::Cmd("SET"@),
        RedisFmtView::Raw(key.bytes()),
        RedisFmtView::Raw(value.bytes()),
        RedisFmtView::CRLF,
    ]);
}

/// Round trip of plain strings. A record of type string whose key and value
/// are stored as they are is written as the command `SET` with the bytes of
/// the key and of the value, byte for byte.
pub proof fn plain_string_round_trip(key: Seq<u8>, value: Seq<u8>, rest: Seq<u8>, now: int)
    requires
        key.len() < 0x4000_0000,
        value.len() < 0x4000_0000,
    ensures
        RedisData::decode(seq![0u8] + plain_string(key) + plain_string(value) + rest) matches Ok(
            record,
        ) && RedisData::formatted(record, now) == Ok::<Seq<RedisFmtView>, Error>(
            seq![
                RedisFmtView::Cmd("SET"@),
                RedisFmtView::Raw(key),
                RedisFmtView::Raw(value),
                RedisFmtView::CRLF,
            ],
        ),
{
    plain_record_decodes(key, value, rest);
    let s = seq![0u8] + plain_string(key) + plain_string(value) + rest;
    match RedisData::decode(s) {
        Ok(RedisDataView::String(k, v)) => {
            string_record_command(k, v, now);
        },
        _ => {},
    }
}

/// Grouping. Cutting a stream loses only its sentinels. The commands that were
/// completed and the elements of the one still open hold no sentinel, and
/// with the sentinels put back they are the stream.
pub proof fn grouping_keeps_the_stream(fmts: Seq<RedisFmtView>)
    ensures
        join_groups(scan(fmts).0) + scan(fmts).1 == fmts,
        no_sentinel(scan(fmts).1),
        forall|i: int| 0 <= i < scan(fmts).0.len() ==> no_sentinel(#[trigger] scan(fmts).0[i]),
    decreases fmts.len(),
{
    if fmts.len() == 0 {
        assert(join_groups(scan(fmts).0) + scan(fmts).1 =~= fmts);
    } else {
        grouping_keeps_the_stream(fmts.drop_last());
        let (done, open) = scan(fmts.drop_last());
        assert(fmts.drop_last().push(fmts.last()) =~= fmts);
        if fmts.last() is CRLF {
            assert(done.push(open).drop_last() =~= done);
            assert(join_groups(done.push(open)) + Seq::<RedisFmtView>::empty() =~= (join_groups(
                done,
            ) + open).push(fmts.last()));
        } else {
            assert(join_groups(done) + open.push(fmts.last()) =~= (join_groups(done) + open).push(
                fmts.last(),
            ));
        }
    }
}

/// The commands of a record. A record that can be written gives one command
/// for its value and, where its expiry is still due, a second one that sets
/// the expiry, in that order, and leaves no command open.
pub proof fn record_commands(expire: ExpireTime, data: RedisDataView, now: int)
    requires
        data.command() is Ok,
    ensures
        ({
            let out = RdbEntry::formatted(RdbEntryView::Data { expire, data }, now);
            let argv = data.command()->Ok_0;
            &&& out is Ok
            &&& scan(out->Ok_0) == (
                if expire.is_due_after(now) {
                    seq![argv, expire.command(data.key().bytes()).drop_last()]
                } else {
                    seq![argv]
                },
                Seq::<RedisFmtView>::empty(),
            )
        }),
{
    let argv = data.command()->Ok_0;
    let first = argv.push(RedisFmtView::CRLF);
    let tail = expire.formatted(data.key().bytes(), now);
    data.lemma_command_is_one();
    lemma_scan_append(first, tail);
    if expire.is_due_after(now) {
        let second = tail.drop_last();
        assert(second.push(RedisFmtView::CRLF) =~= tail);
        lemma_split_one(second);
        assert(seq![argv] + seq![second] =~= seq![argv, second]);
    } else {
        assert(seq![argv] + Seq::<Seq<RedisFmtView>>::empty() =~= seq![argv]);
    }
}

/// An entry that can be written leaves no command open.
pub proof fn entry_commands_are_closed(entry: RdbEntryView, now: int)
    ensures
        RdbEntry::formatted(entry, now) matches Ok(out) ==> scan(out).1.len() == 0,
{
    if let RdbEntryView::Data { expire, data } = entry {
        if data.command() is Ok {
            record_commands(expire, data, now);
        }
    }
}

/// Order of the commands. The commands of a run of entries are the commands
/// of its entries in the order of the entries, up to the first entry that
/// cannot be written.
pub proof fn commands_follow_entries(entries: Seq<RdbEntryView>, entry: RdbEntryView, now: int)
    ensures
        scan(project_all(entries, now).0).1.len() == 0,
        project_all(entries, now).1 is None ==> split_groups(
            project_all(entries.push(entry), now).0,
        ) == split_groups(project_all(entries, now).0) + match RdbEntry::formatted(entry, now) {
            Ok(out) => split_groups(out),
            Err(_) => Seq::empty(),
        },
    decreases entries.len(),
{
    if entries.len() > 0 {
        commands_follow_entries(entries.drop_last(), entries.last(), now);
        entry_commands_are_closed(entries.last(), now);
        let (fmts, fault) = project_all(entries.drop_last(), now);
        if fault is None {
            if let Ok(out) = RdbEntry::formatted(entries.last(), now) {
                lemma_scan_append(fmts, out);
            }
        }
    }
    assert(entries.push(entry).drop_last() =~= entries);
    let (fmts, fault) = project_all(entries, now);
    if fault is None {
        match RdbEntry::formatted(entry, now) {
            Ok(out) => {
                lemma_scan_append(fmts, out);
            },
            Err(_) => {
                assert(split_groups(fmts) + Seq::<Seq<RedisFmtView>>::empty() =~= split_groups(
                    fmts,
                ));
            },
        }
    }
}

/// The entries of two runs are written as the entries of the first and then
/// those of the second, so long as all of the first can be written.
pub proof fn projection_in_parts(first: Seq<RdbEntryView>, second: Seq<RdbEntryView>, now: int)
    requires
        project_all(first, now).1 is None,
    ensures
        project_all(first + second, now) == (
            project_all(first, now).0 + project_all(second, now).0,
            project_all(second, now).1,
        ),
    decreases second.len(),
{
    let fmts = project_all(first, now).0;
    if second.len() == 0 {
        assert(first + second =~= first);
        assert(fmts + Seq::<RedisFmtView>::empty() =~= fmts);
    } else {
        projection_in_parts(first, second.drop_last(), now);
        assert((first + second).drop_last() =~= first + second.drop_last());
        let (fewer, fault) = project_all(second.drop_last(), now);
        if fault is None {
            if let Ok(out) = RdbEntry::formatted(second.last(), now) {
                assert((fmts + fewer) + out =~= fmts + (fewer + out));
            }
        }
    }
}

/// Feeding in parts. Where a parser has read a first part of a snapshot
/// without a fault, reading a second part goes on from there: the state, the
/// unread bytes and the checksum are those of reading both parts at once,
/// and so are the commands, those of the first part before those of the
/// second. A fault in the second part is the fault of reading both at once.
pub proof fn feeding_in_parts(before: ParserView, a: Seq<u8>, b: Seq<u8>, now: int)
    requires
        read_outcome(before, a, now).1 is Ok,
    ensures
        ({
            let (mid, first) = read_outcome(before, a, now);
            let (last, second) = read_outcome(mid, b, now);
            let (after, whole) = read_outcome(before, a + b, now);
            &&& whole == match second {
                Ok(cmds) => Ok::<Seq<Seq<RedisFmtView>>, Error>(first->Ok_0 + cmds),
                Err(e) => Err::<Seq<Seq<RedisFmtView>>, Error>(e),
            }
            &&& after == if second is Ok {
                last
            } else {
                ParserView { ready: first->Ok_0 + last.ready, ..last }
            }
        }),
{
    let fed = before.unread + a;
    let r1 = run(before.state, fed, before.end);
    let r2 = run(r1.state, r1.rest + b, r1.end);
    lemma_run_extend(before.state, fed, before.end, b);
    assert(fed + b =~= before.unread + (a + b));
    let seen = before.parsed + r1.entries;
    let (fmts1, _) = project_all(seen, now);
    let (fmts2, fault2) = project_all(r2.entries, now);
    projection_in_parts(seen, r2.entries, now);
    assert(seen + r2.entries =~= before.parsed + (r1.entries + r2.entries));
    assert(Seq::<RdbEntryView>::empty() + r2.entries =~= r2.entries);
    commands_follow_entries(seen, RdbEntryView::Version(0), now);
    lemma_scan_append(fmts1, fmts2);
    let cmds1 = before.ready + split_groups(fmts1);
    let cmds2 = split_groups(fmts2);
    assert(Seq::<Seq<RedisFmtView>>::empty() + cmds2 =~= cmds2);
    assert(before.ready + (split_groups(fmts1) + cmds2) =~= cmds1 + cmds2);
}

/// A run of the machine stops on a fault only where the input is malformed.
pub proof fn run_faults_are_malformed(state: State, s: Seq<u8>, end: Seq<u8>)
    ensures
        run(state, s, end).fault matches Some(e) ==> e is Faild,
    decreases s.len(), state.rank(),
{
    reveal(step);
    lemma_step_progress(state, s);
    match step(state, s) {
        Ok(Step::Emit(entry, next)) => {
            run_faults_are_malformed(
                next,
                s.skip(RdbEntry::wire_len(entry) as int),
                end_after(entry, end),
            );
        },
        Ok(Step::Goto(next)) => {
            run_faults_are_malformed(next, s, end);
        },
        _ => {
            if state == State::Data && s.len() >= 1 {
                if let Ok(expire) = ExpireTime::decode(s) {
                    record_decoder_applies(s.skip(ExpireTime::wire_len(expire) as int));
                }
            }
        },
    }
}

/// An entry is written or it is malformed.
pub proof fn entry_faults_are_malformed(entry: RdbEntryView, now: int)
    ensures
        RdbEntry::formatted(entry, now) matches Err(e) ==> e is Faild,
{
    item_decoders_apply();
    if let RdbEntryView::Data { expire, data } = entry {
        let bytes = match data {
            RedisDataView::ListZipList(_, v) => v.bytes(),
            RedisDataView::HashZipList(_, v) => v.bytes(),
            RedisDataView::ZSetZipList(_, v) => v.bytes(),
            _ => Seq::empty(),
        };
        if let Ok(zlbytes) = Length::decode(bytes) {
            let at = Length::wire_len(zlbytes) as int;
            if let Ok(zllen) = ZipListLen::decode(bytes.skip(at + 4)) {
                items_apply::<ZipListEntry>(bytes.skip(at + 6), zllen.0 as nat);
            }
        }
    }
}

/// The entries are written up to one that is malformed.
pub proof fn projection_faults_are_malformed(entries: Seq<RdbEntryView>, now: int)
    ensures
        project_all(entries, now).1 matches Some(e) ==> e is Faild,
    decreases entries.len(),
{
    if entries.len() > 0 {
        projection_faults_are_malformed(entries.drop_last(), now);
        entry_faults_are_malformed(entries.last(), now);
    }
}

/// Faults. Whatever a parser holds and whatever it is fed, it reports a
/// fault only for malformed input: input that is short makes it wait, and
/// the signal that a kind does not apply never leaves it.
pub proof fn only_malformed_input_is_a_fault(before: ParserView, data: Seq<u8>, now: int)
    ensures
        read_outcome(before, data, now).1 matches Err(e) ==> e is Faild,
{
    let r = run(before.state, before.unread + data, before.end);
    run_faults_are_malformed(before.state, before.unread + data, before.end);
    projection_faults_are_malformed(before.parsed + r.entries, now);
}

/// Progress of the machine. From every state and before every input the
/// machine halts at the end, makes no move for want of bytes or on malformed
/// input, takes at least one byte, or goes without a byte to a state of
/// lower rank: so it makes finitely many moves for the bytes that it takes.
/// A run as a whole stops only at the end of the snapshot, for want of bytes
/// or on malformed input.
pub proof fn machine_progress(state: State, s: Seq<u8>, end: Seq<u8>)
    ensures
        step(state, s) matches Ok(Step::Emit(entry, _)) ==> 1 <= RdbEntry::wire_len(entry)
            <= s.len(),
        step(state, s) matches Ok(Step::Goto(next)) ==> next.rank() < state.rank(),
        step(state, s) matches Ok(Step::Halt) ==> state == State::End,
        ({
            let r = run(state, s, end);
            match r.fault {
                Some(e) => step(r.state, r.rest) == Err::<Step, Error>(e) && e != Error::More,
                None => r.state == State::End || step(r.state, r.rest) == Err::<Step, Error>(
                    Error::More,
                ),
            }
        }),
{
    lemma_step_progress(state, s);
    lemma_run_stops(state, s, end);
}

} // verus!
