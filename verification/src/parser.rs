//! The state machine that walks the envelope of a snapshot as its bytes
//! arrive, and the parser that drives it.

use crate::com::{lemma_views_push, views, Error, FromBuf, Shift};
use crate::codec::length::Length;
use crate::entry::{RdbEntry, RdbEntryView};
use crate::fmt::{split_groups, Group, RedisCmd, RedisFmt, RedisFmtView, RedisFormat};
use crate::types::data::RedisData;
use crate::types::expire::{unix_millis, whole_secs, ExpireTime};
use vstd::prelude::*;
use vstd::slice::slice_to_vec;

verus! {

/// Where the machine stands in the envelope.
#[derive(Debug, Clone, Copy, PartialEq, Eq)]
pub enum State {
    Header,
    Sector,
    Data,
    Crc,
    End,
}

impl State {
    /// How far the state is from the end, counted in the moves that take no
    /// byte.
    pub open spec fn rank(self) -> nat {
        match self {
            State::End => 0,
            State::Crc => 1,
            _ => 2,
        }
    }
}

/// One move of the machine.
pub enum Step {
    /// An entry was decoded; the machine goes on behind it in the given state.
    Emit(RdbEntryView, State),
    /// No byte was taken; the machine goes on in the given state.
    Goto(State),
    /// The machine is at its end.
    Halt,
}

/// A move of the machine together with the entry as it was decoded.
#[derive(Debug, Clone, PartialEq, Eq)]
pub enum Move {
    Emit(RdbEntry, State),
    Goto(State),
    Halt,
}

impl View for Move {
    type V = Step;

    open spec fn view(&self) -> Step {
        match self {
            Move::Emit(entry, next) => Step::Emit(entry@, *next),
            Move::Goto(next) => Step::Goto(*next),
            Move::Halt => Step::Halt,
        }
    }
}

/// The move that the machine makes in `state` with `src` before it, or why
/// it makes none.
#[verifier::opaque]
pub open spec fn step(state: State, src: Seq<u8>) -> Result<Step, Error> {
    match state {
        State::Header => match RdbEntryView::decode_header(src) {
            Ok(entry) => Ok(Step::Emit(entry, State::Sector)),
            Err(e) => Err(e),
        },
        State::Sector => match RdbEntryView::decode_sector(src) {
            Ok(entry) => Ok(Step::Emit(entry, State::Data)),
            Err(Error::Other) => Ok(Step::Goto(State::Crc)),
            Err(e) => Err(e),
        },
        State::Data => match RdbEntryView::decode_data(src) {
            Ok(entry) => Ok(Step::Emit(entry, State::Data)),
            Err(Error::Other) => Ok(Step::Goto(State::Crc)),
            Err(e) => Err(e),
        },
        State::Crc => match RdbEntryView::decode_crc(src) {
            Ok(entry) => Ok(Step::Emit(entry, State::End)),
            Err(e) => Err(e),
        },
        State::End => Ok(Step::Halt),
    }
}

/// An entry that the machine decodes takes at least one byte and lies within
/// the input.
pub proof fn lemma_step_fits(state: State, src: Seq<u8>)
    ensures
        step(state, src) matches Ok(Step::Emit(entry, _)) ==> 1 <= RdbEntry::wire_len(entry)
            <= src.len(),
{
    reveal(step);
    match state {
        State::Sector => {
            if src.len() >= 1 {
                Length::lemma_decode_fits(src.skip(1));
            }
        },
        State::Data => {
            ExpireTime::lemma_decode_fits(src);
            if let Ok(expire) = ExpireTime::decode(src) {
                RedisData::lemma_decode_fits(src.skip(ExpireTime::wire_len(expire) as int));
            }
        },
        _ => {},
    }
}

/// Every move brings the machine nearer to its end: it takes at least one
/// byte, or it takes none and goes to a state of lower rank.
pub proof fn lemma_step_progress(state: State, src: Seq<u8>)
    ensures
        step(state, src) matches Ok(Step::Emit(entry, _)) ==> 1 <= RdbEntry::wire_len(entry)
            <= src.len(),
        step(state, src) matches Ok(Step::Goto(next)) ==> next.rank() < state.rank(),
        step(state, src) matches Ok(Step::Halt) ==> state == State::End,
{
    reveal(step);
    lemma_step_fits(state, src);
}

/// Bytes behind an entry do not change the move that decodes it.
pub proof fn lemma_step_prefix(state: State, src: Seq<u8>, n: int)
    requires
        step(state, src) matches Ok(Step::Emit(entry, _)) && RdbEntry::wire_len(entry) <= n
            <= src.len(),
    ensures
        step(state, src.take(n)) == step(state, src),
{
    reveal(step);
    lemma_step_fits(state, src);
    let cut = src.take(n);
    match state {
        State::Header => {
            assert(cut.take(5) =~= src.take(5));
            assert(cut.subrange(5, 9) =~= src.subrange(5, 9));
        },
        State::Sector => {
            Length::lemma_decode_prefix(src.skip(1), n - 1);
            assert(cut.skip(1) =~= src.skip(1).take(n - 1));
        },
        State::Data => {
            let expire = ExpireTime::decode(src)->Ok_0;
            let at = ExpireTime::wire_len(expire) as int;
            RedisData::lemma_decode_fits(src.skip(at));
            ExpireTime::lemma_decode_prefix(src, n);
            RedisData::lemma_decode_prefix(src.skip(at), n - at);
            assert(cut.skip(at) =~= src.skip(at).take(n - at));
        },
        State::Crc => {
            assert(cut.subrange(1, 9) =~= src.subrange(1, 9));
        },
        State::End => {},
    }
}

/// Input that is one byte short of an entry makes no move: the machine asks
/// for more.
pub proof fn lemma_step_short(state: State, src: Seq<u8>)
    requires
        step(state, src) matches Ok(Step::Emit(_, _)),
    ensures
        step(state, src) matches Ok(Step::Emit(entry, _)) && step(
            state,
            src.take(RdbEntry::wire_len(entry) - 1),
        ) == Err::<Step, Error>(Error::More),
{
    reveal(step);
    lemma_step_fits(state, src);
    let entry = step(state, src)->Ok_0->Emit_0;
    let n = RdbEntry::wire_len(entry) - 1;
    let cut = src.take(n);
    match state {
        State::Sector => {
            Length::lemma_decode_short(src.skip(1));
            assert(cut.skip(1) =~= src.skip(1).take(n - 1));
        },
        State::Data => {
            let expire = ExpireTime::decode(src)->Ok_0;
            let at = ExpireTime::wire_len(expire) as int;
            RedisData::lemma_decode_fits(src.skip(at));
            ExpireTime::lemma_decode_prefix(src, n);
            RedisData::lemma_decode_short(src.skip(at));
            assert(cut.skip(at) =~= src.skip(at).take(n - at));
        },
        _ => {},
    }
}

/// Bytes added behind the input do not change a move that the machine
/// makes.
pub proof fn lemma_step_extend(state: State, src: Seq<u8>, more: Seq<u8>)
    requires
        step(state, src) is Ok,
    ensures
        step(state, src + more) == step(state, src),
{
    reveal(step);
    match state {
        State::Header => {
            RdbEntryView::lemma_decode_header_extend(src, more);
        },
        State::Sector => {
            RdbEntryView::lemma_decode_sector_extend(src, more);
        },
        State::Data => {
            RdbEntryView::lemma_decode_data_extend(src, more);
        },
        State::Crc => {
            RdbEntryView::lemma_decode_crc_extend(src, more);
        },
        State::End => {},
    }
}

/// A run that stopped without a fault goes on, once bytes are added, from
/// where it stopped: the run over the longer input decodes the same entries
/// first.
pub proof fn lemma_run_extend(state: State, src: Seq<u8>, end: Seq<u8>, more: Seq<u8>)
    requires
        run(state, src, end).fault is None,
    ensures
        ({
            let first = run(state, src, end);
            run(state, src + more, end) == run_behind(
                first.entries,
                run(first.state, first.rest + more, first.end),
            )
        }),
    decreases src.len(), state.rank(),
{
    lemma_step_progress(state, src);
    let first = run(state, src, end);
    match step(state, src) {
        Ok(Step::Emit(entry, next)) => {
            let w = RdbEntry::wire_len(entry) as int;
            let rest = run(next, src.skip(w), end_after(entry, end));
            lemma_step_extend(state, src, more);
            lemma_run_extend(next, src.skip(w), end_after(entry, end), more);
            assert((src + more).skip(w) =~= src.skip(w) + more);
            let after = run(rest.state, rest.rest + more, rest.end);
            assert(seq![entry] + (rest.entries + after.entries) =~= (seq![entry] + rest.entries)
                + after.entries);
        },
        Ok(Step::Goto(next)) => {
            lemma_step_extend(state, src, more);
            lemma_run_extend(next, src, end, more);
        },
        _ => {
            let after = run(state, src + more, end);
            assert(Seq::<RdbEntryView>::empty() + after.entries =~= after.entries);
        },
    }
}

/// Makes the move that the machine makes in `state` with `src` before it.
pub fn advance(state: State, src: &[u8]) -> (r: Result<Move, Error>)
    ensures
        r matches Ok(m) ==> step(state, src@) == Ok::<Step, Error>(m@),
        r matches Err(e) ==> step(state, src@) == Err::<Step, Error>(e),
{
    reveal(step);
    match state {
        State::Header => match RdbEntry::header(src) {
            Ok(entry) => Ok(Move::Emit(entry, State::Sector)),
            Err(e) => Err(e),
        },
        State::Sector => match RdbEntry::sector(src) {
            Ok(entry) => Ok(Move::Emit(entry, State::Data)),
            Err(Error::Other) => Ok(Move::Goto(State::Crc)),
            Err(e) => Err(e),
        },
        State::Data => match RdbEntry::data(src) {
            Ok(entry) => Ok(Move::Emit(entry, State::Data)),
            Err(Error::Other) => Ok(Move::Goto(State::Crc)),
            Err(e) => Err(e),
        },
        State::Crc => match RdbEntry::crc(src) {
            Ok(entry) => Ok(Move::Emit(entry, State::End)),
            Err(e) => Err(e),
        },
        State::End => Ok(Move::Halt),
    }
}

/// Where a run of the machine ends.
pub struct Run {
    /// The state that the machine stopped in.
    pub state: State,
    /// The bytes that it left unread.
    pub rest: Seq<u8>,
    /// The entries that it decoded, in order.
    pub entries: Seq<RdbEntryView>,
    /// The checksum, once the end was decoded.
    pub end: Seq<u8>,
    /// Why it stopped, where that was malformed input.
    pub fault: Option<Error>,
}

/// The checksum after `entry` was decoded.
pub open spec fn end_after(entry: RdbEntryView, end: Seq<u8>) -> Seq<u8> {
    match entry {
        RdbEntryView::Crc(bytes) => bytes,
        _ => end,
    }
}

/// The run of the machine from `state` over `src`: it moves until it is at
/// its end, until the input is too short for the next entry, or until the
/// input is malformed.
pub open spec fn run(state: State, src: Seq<u8>, end: Seq<u8>) -> Run
    decreases src.len(), state.rank(),
{
    match step(state, src) {
        Ok(Step::Emit(entry, next)) => {
            proof {
                lemma_step_progress(state, src);
            }
            let rest = run(next, src.skip(RdbEntry::wire_len(entry) as int), end_after(entry, end));
            Run {
                state: rest.state,
                rest: rest.rest,
                entries: seq![entry] + rest.entries,
                end: rest.end,
                fault: rest.fault,
            }
        },
        Ok(Step::Goto(next)) => {
            proof {
                lemma_step_progress(state, src);
            }
            run(next, src, end)
        },
        Ok(Step::Halt) => Run { state, rest: src, entries: Seq::empty(), end, fault: None },
        Err(Error::More) => Run { state, rest: src, entries: Seq::empty(), end, fault: None },
        Err(e) => Run { state, rest: src, entries: Seq::empty(), end, fault: Some(e) },
    }
}

/// A run that goes on behind entries that were decoded before.
pub open spec fn run_behind(seen: Seq<RdbEntryView>, rest: Run) -> Run {
    Run {
        state: rest.state,
        rest: rest.rest,
        entries: seen + rest.entries,
        end: rest.end,
        fault: rest.fault,
    }
}

/// The bytes that `entries` take together.
pub open spec fn entries_len(entries: Seq<RdbEntryView>) -> nat
    decreases entries.len(),
{
    if entries.len() == 0 {
        0
    } else {
        entries_len(entries.drop_last()) + RdbEntry::wire_len(entries.last())
    }
}

/// Entries put before others add their bytes.
pub proof fn lemma_entries_len_add(first: Seq<RdbEntryView>, second: Seq<RdbEntryView>)
    ensures
        entries_len(first + second) == entries_len(first) + entries_len(second),
    decreases second.len(),
{
    if second.len() == 0 {
        assert(first + second =~= first);
    } else {
        lemma_entries_len_add(first, second.drop_last());
        assert((first + second).drop_last() =~= first + second.drop_last());
    }
}

/// A run stops only at the end of the snapshot, for want of bytes or on
/// malformed input, and what it leaves unread is the input behind the entries
/// that it decoded.
pub proof fn lemma_run_stops(state: State, src: Seq<u8>, end: Seq<u8>)
    ensures
        ({
            let r = run(state, src, end);
            &&& entries_len(r.entries) <= src.len()
            &&& r.rest == src.skip(entries_len(r.entries) as int)
            &&& match r.fault {
                Some(e) => step(r.state, r.rest) == Err::<Step, Error>(e) && e != Error::More,
                None => r.state == State::End || step(r.state, r.rest) == Err::<Step, Error>(
                    Error::More,
                ),
            }
        }),
    decreases src.len(), state.rank(),
{
    lemma_step_progress(state, src);
    assert(entries_len(Seq::empty()) == 0);
    match step(state, src) {
        Ok(Step::Emit(entry, next)) => {
            let w = RdbEntry::wire_len(entry) as int;
            lemma_run_stops(next, src.skip(w), end_after(entry, end));
            let rest = run(next, src.skip(w), end_after(entry, end));
            lemma_entries_len_add(seq![entry], rest.entries);
            assert(seq![entry].drop_last() =~= Seq::<RdbEntryView>::empty());
            assert(entries_len(seq![entry]) == w);
            assert(src.skip(w).skip(entries_len(rest.entries) as int) =~= src.skip(
                w + entries_len(rest.entries),
            ));
        },
        Ok(Step::Goto(next)) => {
            lemma_run_stops(next, src, end);
        },
        _ => {
            assert(src.skip(0) =~= src);
        },
    }
}

/// What a parser holds.
pub struct ParserView {
    /// The state of the machine.
    pub state: State,
    /// The bytes that were fed and not yet decoded.
    pub unread: Seq<u8>,
    /// The entries that were decoded and not yet drained.
    pub parsed: Seq<RdbEntryView>,
    /// The checksum, once the end was decoded.
    pub end: Seq<u8>,
    /// The commands that were written and not yet handed out.
    pub ready: Seq<Seq<RedisFmtView>>,
}

impl ParserView {
    /// Whether a stream that stops now is cut short inside the envelope: the
    /// machine stands in the header, at the choice of a database or at the
    /// end of the snapshot, not between records and not behind the end.
    pub open spec fn cut_short(self) -> bool {
        self.state == State::Header || self.state == State::Sector || self.state == State::Crc
    }
}

/// The flat stream of `entries` at the instant `now`, up to the first entry
/// that cannot be written, and why that one cannot.
pub open spec fn project_all(entries: Seq<RdbEntryView>, now: int) -> (
    Seq<RedisFmtView>,
    Option<Error>,
)
    decreases entries.len(),
{
    if entries.len() == 0 {
        (Seq::empty(), None)
    } else {
        let (fmts, fault) = project_all(entries.drop_last(), now);
        if fault is Some {
            (fmts, fault)
        } else {
            match RdbEntry::formatted(entries.last(), now) {
                Ok(out) => (fmts + out, None),
                Err(e) => (fmts, Some(e)),
            }
        }
    }
}

/// What feeding `data` to a parser and reading its commands at the instant
/// `now` comes to: the parser afterwards, and the commands or the first
/// fault. The machine runs over the unread bytes and `data`. The entries are
/// written in order; a record that cannot be written is a fault before any
/// fault of the machine. After a fault the commands before it stay with the
/// parser.
pub open spec fn read_outcome(before: ParserView, data: Seq<u8>, now: int) -> (
    ParserView,
    Result<Seq<Seq<RedisFmtView>>, Error>,
) {
    let r = run(before.state, before.unread + data, before.end);
    let (fmts, fault) = project_all(before.parsed + r.entries, now);
    let cmds = before.ready + split_groups(fmts);
    let first = if fault is Some {
        fault
    } else {
        r.fault
    };
    let after = ParserView {
        state: r.state,
        unread: r.rest,
        parsed: Seq::empty(),
        end: r.end,
        ready: if first is Some {
            cmds
        } else {
            Seq::empty()
        },
    };
    (
        after,
        match first {
            Some(e) => Err(e),
            None => Ok(cmds),
        },
    )
}

/// Writes `entries` to `fmts` in order, up to the first that cannot be
/// written.
fn project_entries(entries: Vec<RdbEntry>, now: u64, fmts: &mut Vec<RedisFmt>) -> (fault: Option<
    Error,
>)
    requires
        old(fmts)@.len() == 0,
    ensures
        (views(final(fmts)@), fault) == project_all(views(entries@), now as int),
{
    let ghost all = views(entries@);
    let mut fault: Option<Error> = None;
    assert(views(fmts@) =~= Seq::<RedisFmtView>::empty());
    assert(all.take(0) =~= Seq::<RdbEntryView>::empty());
    for entry in it: entries
        invariant
            it.seq() == entries@,
            all == views(entries@),
            (views(fmts@), fault) == project_all(all.take(it.index() as int), now as int),
    {
        let ghost i = it.index() as int;
        assert(all.take(i + 1).drop_last() =~= all.take(i));
        if fault.is_none() {
            match entry.fmt(now, fmts) {
                Ok(_) => {},
                Err(e) => {
                    fault = Some(e);
                },
            }
        }
    }
    assert(all.take(entries@.len() as int) =~= all);
    fault
}

/// A parser of snapshots that is fed the bytes as they arrive.
pub struct DefaultRdbParser {
    local_buf: Vec<u8>,
    cursor: usize,
    parsed: Vec<RdbEntry>,
    state: State,
    end: Vec<u8>,
    ready: Vec<RedisCmd>,
}

impl View for DefaultRdbParser {
    type V = ParserView;

    closed spec fn view(&self) -> ParserView {
        ParserView {
            state: self.state,
            unread: if self.cursor > self.local_buf@.len() {
                Seq::empty()
            } else {
                self.local_buf@.skip(self.cursor as int)
            },
            parsed: views(self.parsed@),
            end: self.end@,
            ready: views(self.ready@),
        }
    }
}

impl Default for DefaultRdbParser {
    fn default() -> (r: Self)
        ensures
            r@ == (ParserView {
                state: State::Header,
                unread: Seq::empty(),
                parsed: Seq::empty(),
                end: Seq::empty(),
                ready: Seq::empty(),
            }),
    {
        let r = DefaultRdbParser {
            local_buf: Vec::new(),
            cursor: 0,
            parsed: Vec::new(),
            state: State::Header,
            end: Vec::new(),
            ready: Vec::new(),
        };
        assert(r@.unread =~= Seq::<u8>::empty());
        assert(r@.parsed =~= Seq::<RdbEntryView>::empty());
        assert(r@.ready =~= Seq::<Seq<RedisFmtView>>::empty());
        r
    }
}

impl DefaultRdbParser {
    /// The bytes that were fed and not yet decoded.
    pub fn local_buf(&self) -> (r: &[u8])
        ensures
            r@ == self@.unread,
    {
        if self.cursor > self.local_buf.len() {
            let r = &self.local_buf[self.local_buf.len()..self.local_buf.len()];
            assert(r@ =~= Seq::<u8>::empty());
            r
        } else {
            &self.local_buf[self.cursor..self.local_buf.len()]
        }
    }

    /// The state of the machine.
    pub fn state(&self) -> (r: State)
        ensures
            r == self@.state,
    {
        self.state
    }

    /// Whether a stream that stops now is cut short inside the envelope.
    pub fn is_cut_short(&self) -> (r: bool)
        ensures
            r == self@.cut_short(),
    {
        match self.state {
            State::Header | State::Sector | State::Crc => true,
            State::Data | State::End => false,
        }
    }

    /// What a reader hands on once its source has stopped: the commands
    /// that were read, or the wish for more bytes where the stream is cut
    /// short and there is no command to hand on.
    pub fn when_stopped(&self, cmds: Vec<RedisCmd>) -> (r: Result<Vec<RedisCmd>, Error>)
        ensures
            r == if self@.cut_short() && cmds@.len() == 0 {
                Err::<Vec<RedisCmd>, Error>(Error::More)
            } else {
                Ok::<Vec<RedisCmd>, Error>(cmds)
            },
    {
        if self.is_cut_short() && cmds.len() == 0 {
            Err(Error::More)
        } else {
            Ok(cmds)
        }
    }

    /// The checksum of the snapshot, empty until the end was decoded.
    pub fn checksum(&self) -> (r: &Vec<u8>)
        ensures
            r@ == self@.end,
    {
        &self.end
    }

    /// Appends bytes of the snapshot to the unread ones.
    pub fn feed(&mut self, data: &[u8])
        ensures
            final(self)@ == (ParserView { unread: old(self)@.unread + data@, ..old(self)@ }),
    {
        if self.cursor > self.local_buf.len() {
            self.cursor = self.local_buf.len();
        }
        self.local_buf.extend_from_slice(data);
        assert(self@.unread =~= old(self)@.unread + data@);
    }

    /// Runs the machine over the unread bytes. The entries that it decodes
    /// are kept for `drain_buf`. Input that is too short for the next entry
    /// is no fault: the run goes on from there once more bytes were fed.
    pub fn parse(&mut self) -> (r: Result<(), Error>)
        ensures
            ({
                let run = run(old(self)@.state, old(self)@.unread, old(self)@.end);
                &&& final(self)@ == (ParserView {
                    state: run.state,
                    unread: run.rest,
                    parsed: old(self)@.parsed + run.entries,
                    end: run.end,
                    ready: old(self)@.ready,
                })
                &&& r == match run.fault {
                    Some(e) => Err::<(), Error>(e),
                    None => Ok::<(), Error>(()),
                }
            }),
    {
        let ghost start = self@;
        let ghost goal = run(start.state, start.unread, start.end);
        let ghost mut seen: Seq<RdbEntryView> = Seq::empty();
        assert(start.parsed + seen =~= start.parsed);
        assert(seen + goal.entries =~= goal.entries);
        loop
            invariant
                start == old(self)@,
                goal == run(start.state, start.unread, start.end),
                self@.ready == start.ready,
                self@.parsed == start.parsed + seen,
                goal == run_behind(seen, run(self@.state, self@.unread, self@.end)),
            decreases self@.unread.len(), self@.state.rank(),
        {
            let ghost here = self@;
            let ghost rest = run(here.state, here.unread, here.end);
            proof {
                lemma_step_progress(here.state, here.unread);
                assert(self.local_buf@.len() == self.local_buf.len());
                assert(seen + Seq::<RdbEntryView>::empty() =~= seen);
            }
            let outcome = advance(self.state, self.local_buf());
            match outcome {
                Ok(Move::Emit(entry, next)) => {
                    let width = entry.shift();
                    self.cursor = self.cursor + width;
                    self.state = next;
                    if let RdbEntry::Crc(bytes) = &entry {
                        self.end = slice_to_vec(bytes.as_slice());
                    }
                    proof {
                        lemma_views_push(self.parsed@, entry);
                        assert(self@.unread =~= here.unread.skip(width as int));
                        assert(self@.end == end_after(entry@, here.end));
                        let after = run(self@.state, self@.unread, self@.end);
                        assert(rest.entries == seq![entry@] + after.entries);
                        assert(seen + (seq![entry@] + after.entries) =~= seen.push(entry@)
                            + after.entries);
                        assert((start.parsed + seen).push(entry@) =~= start.parsed + seen.push(
                            entry@,
                        ));
                        seen = seen.push(entry@);
                    }
                    self.parsed.push(entry);
                },
                Ok(Move::Goto(next)) => {
                    self.state = next;
                },
                Ok(Move::Halt) => {
                    assert(start.parsed + seen + rest.entries =~= start.parsed + (seen
                        + rest.entries));
                    return Ok(());
                },
                Err(Error::More) => {
                    assert(start.parsed + seen + rest.entries =~= start.parsed + (seen
                        + rest.entries));
                    return Ok(());
                },
                Err(e) => {
                    assert(start.parsed + seen + rest.entries =~= start.parsed + (seen
                        + rest.entries));
                    return Err(e);
                },
            }
        }
    }

    /// Hands out the entries that were decoded and drops the bytes that they
    /// were decoded from.
    pub fn drain_buf(&mut self) -> (r: Vec<RdbEntry>)
        ensures
            views(r@) == old(self)@.parsed,
            final(self)@ == (ParserView { parsed: Seq::empty(), ..old(self)@ }),
    {
        let mut entries: Vec<RdbEntry> = Vec::new();
        core::mem::swap(&mut entries, &mut self.parsed);
        let rest = slice_to_vec(self.local_buf());
        self.local_buf = rest;
        self.cursor = 0;
        assert(self@.unread =~= old(self)@.unread);
        assert(self@.parsed =~= Seq::<RdbEntryView>::empty());
        entries
    }

    /// Hands out the commands that were written before a fault.
    pub fn take_cmds(&mut self) -> (r: Vec<RedisCmd>)
        ensures
            views(r@) == old(self)@.ready,
            final(self)@ == (ParserView { ready: Seq::empty(), ..old(self)@ }),
    {
        let mut cmds: Vec<RedisCmd> = Vec::new();
        core::mem::swap(&mut cmds, &mut self.ready);
        assert(self@.ready =~= Seq::<Seq<RedisFmtView>>::empty());
        cmds
    }

    /// Feeds `data`, runs the machine and hands out the commands of all
    /// entries that were decoded, written as of `now` seconds after the Unix
    /// epoch.
    pub fn read_to_cmd_at(&mut self, data: &[u8], now: u64) -> (r: Result<Vec<RedisCmd>, Error>)
        ensures
            final(self)@ == read_outcome(old(self)@, data@, now as int).0,
            r matches Ok(cmds) ==> read_outcome(old(self)@, data@, now as int).1 == Ok::<
                Seq<Seq<RedisFmtView>>,
                Error,
            >(views(cmds@)),
            r matches Err(e) ==> read_outcome(old(self)@, data@, now as int).1 == Err::<
                Seq<Seq<RedisFmtView>>,
                Error,
            >(e),
    {
        self.feed(data);
        let fault = self.parse();
        let entries = self.drain_buf();
        let mut fmts: Vec<RedisFmt> = Vec::new();
        let unwritten = project_entries(entries, now, &mut fmts);
        let mut cmds = fmts.group();
        let ghost held = self.ready@;
        let ghost fresh = cmds@;
        self.ready.append(&mut cmds);
        assert(views(held + fresh) =~= views(held) + views(fresh));
        match unwritten {
            Some(e) => Err(e),
            None => match fault {
                Err(e) => Err(e),
                Ok(()) => Ok(self.take_cmds()),
            },
        }
    }

    /// Feeds `data`, runs the machine and hands out the commands of all
    /// entries that were decoded, written as of the seconds that the system
    /// clock counts since the Unix epoch, which are never below zero.
    pub fn read_to_cmd(&mut self, data: &[u8]) -> (r: Result<Vec<RedisCmd>, Error>)
        ensures
            exists|now: int|
                {
                    &&& 0 <= now <= u64::MAX
                    &&& final(self)@ == (#[trigger] read_outcome(old(self)@, data@, now)).0
                    &&& r matches Ok(cmds) ==> read_outcome(old(self)@, data@, now).1 == Ok::<
                        Seq<Seq<RedisFmtView>>,
                        Error,
                    >(views(cmds@))
                    &&& r matches Err(e) ==> read_outcome(old(self)@, data@, now).1 == Err::<
                        Seq<Seq<RedisFmtView>>,
                        Error,
                    >(e)
                },
    {
        let now = whole_secs(unix_millis());
        self.read_to_cmd_at(data, now)
    }
}

} // verus!
