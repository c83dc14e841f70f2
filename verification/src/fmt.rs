//! Commands as lists of arguments, and the flat stream that they are cut from.

use crate::com::{views, Error};
use vstd::prelude::*;
use vstd::slice::slice_to_vec;

verus! {

/// One element of the flat stream: the name of a command, an argument, or
/// the sentinel that ends a command.
#[derive(Debug, Clone, PartialEq, Eq)]
pub enum RedisFmt {
    Cmd(&'static str),
    Raw(Vec<u8>),
    CRLF,
}

/// What a [`RedisFmt`] holds.
pub enum RedisFmtView {
    Cmd(Seq<char>),
    Raw(Seq<u8>),
    CRLF,
}

impl View for RedisFmt {
    type V = RedisFmtView;

    open spec fn view(&self) -> RedisFmtView {
        match self {
            RedisFmt::Cmd(cmd) => RedisFmtView::Cmd(cmd@),
            RedisFmt::Raw(buf) => RedisFmtView::Raw(buf@),
            RedisFmt::CRLF => RedisFmtView::CRLF,
        }
    }
}

impl RedisFmtView {
    /// The bytes of the element: the name in UTF-8, the argument itself, or
    /// carriage return and line feed.
    pub open spec fn bytes(self) -> Seq<u8> {
        match self {
            RedisFmtView::Cmd(cmd) => vstd::utf8::encode_utf8(cmd),
            RedisFmtView::Raw(buf) => buf,
            RedisFmtView::CRLF => seq![0x0Du8, 0x0Au8],
        }
    }
}

impl RedisFmt {
    /// Whether the element is the sentinel.
    pub fn is_crlf(&self) -> (r: bool)
        ensures
            r == (self@ is CRLF),
    {
        match self {
            RedisFmt::CRLF => true,
            _ => false,
        }
    }

    /// The bytes of the element.
    pub fn into_data(self) -> (r: Vec<u8>)
        ensures
            r@ == self@.bytes(),
    {
        match self {
            RedisFmt::Cmd(cmd) => slice_to_vec(cmd.as_bytes()),
            RedisFmt::Raw(buf) => buf,
            RedisFmt::CRLF => {
                let mut out: Vec<u8> = Vec::new();
                out.push(0x0D);
                out.push(0x0A);
                assert(out@ =~= seq![0x0Du8, 0x0Au8]);
                out
            },
        }
    }
}

/// One command: its name and its arguments.
#[derive(Debug, Clone, PartialEq, Eq)]
pub struct RedisCmd(pub Vec<RedisFmt>);

impl View for RedisCmd {
    type V = Seq<RedisFmtView>;

    open spec fn view(&self) -> Seq<RedisFmtView> {
        views(self.0@)
    }
}

impl RedisCmd {
    /// The bytes of each of `fmts`, in order.
    pub open spec fn bytes_of(fmts: Seq<RedisFmtView>) -> Seq<Seq<u8>> {
        Seq::new(fmts.len(), |i: int| fmts[i].bytes())
    }

    /// The bytes of each element, in order.
    pub fn into_data(self) -> (r: Vec<Vec<u8>>)
        ensures
            views(r@) == RedisCmd::bytes_of(self@),
    {
        let RedisCmd(cmds) = self;
        let ghost all = views(cmds@);
        let mut out: Vec<Vec<u8>> = Vec::new();
        for x in it: cmds
            invariant
                it.seq() == cmds@,
                all == views(cmds@),
                out@.len() == it.index(),
                views(out@) == RedisCmd::bytes_of(all.take(it.index() as int)),
        {
            let ghost i = it.index() as int;
            let ghost before = out@;
            let data = x.into_data();
            out.push(data);
            proof {
                let seen = all.take(i);
                assert(all.take(i + 1) =~= seen.push(all[i]));
                assert(RedisCmd::bytes_of(seen.push(all[i])) =~= RedisCmd::bytes_of(seen).push(
                    all[i].bytes(),
                ));
                assert(views(before.push(data)) =~= views(before).push(data@));
            }
        }
        assert(all.take(cmds@.len() as int) =~= all);
        out
    }
}

/// The commands that were completed and the elements of the one still open,
/// once every element of `fmts` has been seen.
pub open spec fn scan(fmts: Seq<RedisFmtView>) -> (Seq<Seq<RedisFmtView>>, Seq<RedisFmtView>)
    decreases fmts.len(),
{
    if fmts.len() == 0 {
        (Seq::empty(), Seq::empty())
    } else {
        let (done, open) = scan(fmts.drop_last());
        if fmts.last() is CRLF {
            (done.push(open), Seq::empty())
        } else {
            (done, open.push(fmts.last()))
        }
    }
}

/// The commands of a flat stream: each runs up to a sentinel, which is left
/// out. Elements behind the last sentinel belong to no command.
pub open spec fn split_groups(fmts: Seq<RedisFmtView>) -> Seq<Seq<RedisFmtView>> {
    scan(fmts).0
}

/// Whether none of `fmts` is the sentinel.
pub open spec fn no_sentinel(fmts: Seq<RedisFmtView>) -> bool {
    forall|i: int| 0 <= i < fmts.len() ==> !(#[trigger] fmts[i] is CRLF)
}

/// Elements without a sentinel complete no command.
pub proof fn lemma_scan_open(fmts: Seq<RedisFmtView>)
    requires
        no_sentinel(fmts),
    ensures
        scan(fmts) == (Seq::<Seq<RedisFmtView>>::empty(), fmts),
    decreases fmts.len(),
{
    if fmts.len() > 0 {
        lemma_scan_open(fmts.drop_last());
        assert(fmts.drop_last().push(fmts.last()) =~= fmts);
    }
}

/// Behind a stream that leaves no command open, a second stream is cut as
/// it is cut alone.
pub proof fn lemma_scan_append(first: Seq<RedisFmtView>, second: Seq<RedisFmtView>)
    requires
        scan(first).1.len() == 0,
    ensures
        scan(first + second) == (scan(first).0 + scan(second).0, scan(second).1),
    decreases second.len(),
{
    if second.len() == 0 {
        assert(first + second =~= first);
        assert(scan(first).0 + scan(second).0 =~= scan(first).0);
        assert(scan(first).1 =~= scan(second).1);
    } else {
        lemma_scan_append(first, second.drop_last());
        assert((first + second).drop_last() =~= first + second.drop_last());
        let (done, open) = scan(second.drop_last());
        assert((scan(first).0 + done).push(open) =~= scan(first).0 + done.push(open));
    }
}

/// One command with its sentinel is cut into that command.
pub proof fn lemma_split_one(argv: Seq<RedisFmtView>)
    requires
        no_sentinel(argv),
    ensures
        scan(argv.push(RedisFmtView::CRLF)) == (seq![argv], Seq::<RedisFmtView>::empty()),
{
    lemma_scan_open(argv);
    assert(argv.push(RedisFmtView::CRLF).drop_last() =~= argv);
    assert(Seq::<Seq<RedisFmtView>>::empty().push(argv) =~= seq![argv]);
}

/// The flat stream of `groups`: each command with the sentinel behind it.
pub open spec fn join_groups(groups: Seq<Seq<RedisFmtView>>) -> Seq<RedisFmtView>
    decreases groups.len(),
{
    if groups.len() == 0 {
        Seq::empty()
    } else {
        join_groups(groups.drop_last()) + groups.last().push(RedisFmtView::CRLF)
    }
}

/// A value that is written to the flat stream as commands.
pub trait RedisFormat: Sized + View {
    /// What a value with view `v` adds to the stream at the instant `now`
    /// seconds after the Unix epoch, or why it cannot be written.
    spec fn formatted(v: Self::V, now: int) -> Result<Seq<RedisFmtView>, Error>;

    /// Appends the commands of the value to `buf` and gives their number.
    /// Where the value cannot be written, `buf` stays as it was.
    fn fmt(self, now: u64, buf: &mut Vec<RedisFmt>) -> (r: Result<usize, Error>)
        ensures
            r matches Ok(n) ==> Self::formatted(self@, now as int) matches Ok(out) && views(
                final(buf)@,
            ) == views(old(buf)@) + out && n == split_groups(out).len(),
            r matches Err(e) ==> Self::formatted(self@, now as int) == Err::<
                Seq<RedisFmtView>,
                Error,
            >(e) && final(buf)@ == old(buf)@,
    ;
}

/// A flat stream that can be cut into commands.
pub trait Group {
    /// The commands that the stream holds.
    spec fn grouped(&self) -> Seq<Seq<RedisFmtView>>;

    /// Cuts the stream into its commands.
    fn group(self) -> (r: Vec<RedisCmd>)
        ensures
            views(r@) == self.grouped(),
    ;
}

impl Group for Vec<RedisFmt> {
    open spec fn grouped(&self) -> Seq<Seq<RedisFmtView>> {
        split_groups(views(self@))
    }

    fn group(self) -> (r: Vec<RedisCmd>) {
        let ghost all = views(self@);
        let mut group: Vec<RedisCmd> = Vec::new();
        let mut local: Vec<RedisFmt> = Vec::new();
        for fmt in it: self
            invariant
                it.seq() == self@,
                all == views(self@),
                scan(all.take(it.index() as int)) == (views(group@), views(local@)),
        {
            let ghost i = it.index() as int;
            let ghost done = views(group@);
            let ghost open = views(local@);
            assert(all.take(i + 1).drop_last() =~= all.take(i));
            if fmt.is_crlf() {
                let mut tmp: Vec<RedisFmt> = Vec::new();
                core::mem::swap(&mut tmp, &mut local);
                group.push(RedisCmd(tmp));
                assert(views(group@) =~= done.push(open));
                assert(views(local@) =~= Seq::<RedisFmtView>::empty());
            } else {
                local.push(fmt);
                assert(views(local@) =~= open.push(all[i]));
            }
        }
        assert(all.take(self@.len() as int) =~= all);
        group
    }
}

} // verus!
