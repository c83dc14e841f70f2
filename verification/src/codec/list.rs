//! The length-prefixed containers: a count, then that many items.

use crate::codec::length::Length;
use crate::codec::string::{RedisString, RedisStringView};
use crate::com::{views, Error, FromBuf, Settled, Shift};
use vstd::prelude::*;

verus! {

/// A count and the items that follow it.
#[derive(Clone, Debug, PartialEq, Eq)]
pub struct RedisList<I> where I: Shift + FromBuf {
    pub length: Length,
    pub items: Vec<I>,
}

/// What a [`RedisList`] holds, over the views of its items.
pub struct RedisListView<V> {
    pub length: Length,
    pub items: Seq<V>,
}

impl<V> RedisListView<V> {
    /// The count in the header is the number of items.
    pub open spec fn wf(self) -> bool {
        self.length.wf() && self.items.len() == self.length.value()
    }
}

impl<I: Shift + FromBuf> View for RedisList<I> {
    type V = RedisListView<I::V>;

    open spec fn view(&self) -> RedisListView<I::V> {
        RedisListView { length: self.length, items: views(self.items@) }
    }
}

/// The bytes that `items` take together.
pub open spec fn items_len<I: Shift>(items: Seq<I::V>) -> nat
    decreases items.len(),
{
    if items.len() == 0 {
        0
    } else {
        items_len::<I>(items.drop_last()) + I::wire_len(items.last())
    }
}

/// `n` items decoded one behind the other from the front of `src`.
pub open spec fn decode_items<I: FromBuf>(src: Seq<u8>, n: nat) -> Result<Seq<I::V>, Error>
    decreases n,
{
    if n == 0 {
        Ok(Seq::empty())
    } else {
        match decode_items::<I>(src, (n - 1) as nat) {
            Err(e) => Err(e),
            Ok(items) => match I::decode(src.skip(items_len::<I>(items) as int)) {
                Err(e) => Err(e),
                Ok(item) => Ok(items.push(item)),
            },
        }
    }
}

/// A prefix of a run of items takes no more bytes than the run.
pub proof fn lemma_items_len_take<I: Shift>(items: Seq<I::V>, k: int)
    requires
        0 <= k <= items.len(),
    ensures
        items_len::<I>(items.take(k)) <= items_len::<I>(items),
    decreases items.len(),
{
    if k < items.len() {
        lemma_items_len_take::<I>(items.drop_last(), k);
        assert(items.drop_last().take(k) =~= items.take(k));
    } else {
        assert(items.take(k) =~= items);
    }
}

/// One more item adds its width.
pub proof fn lemma_items_len_push<I: Shift>(items: Seq<I::V>, item: I::V)
    ensures
        items_len::<I>(items.push(item)) == items_len::<I>(items) + I::wire_len(item),
{
    assert(items.push(item).drop_last() =~= items);
}

/// A run of `n` decoded items has `n` items, and they lie within the input.
pub proof fn lemma_decode_items_fits<I: FromBuf>(src: Seq<u8>, n: nat)
    ensures
        decode_items::<I>(src, n) matches Ok(items) ==> items.len() == n && items_len::<I>(items)
            <= src.len(),
    decreases n,
{
    if n > 0 {
        lemma_decode_items_fits::<I>(src, (n - 1) as nat);
        if let Ok(items) = decode_items::<I>(src, (n - 1) as nat) {
            let rest = src.skip(items_len::<I>(items) as int);
            I::lemma_decode_fits(rest);
            if let Ok(item) = I::decode(rest) {
                lemma_items_len_push::<I>(items, item);
            }
        }
    }
}

/// Where fewer items fail to decode, so do more, with the same error.
pub proof fn lemma_decode_items_err<I: FromBuf>(src: Seq<u8>, k: nat, n: nat)
    requires
        k <= n,
        decode_items::<I>(src, k) is Err,
    ensures
        decode_items::<I>(src, n) == decode_items::<I>(src, k),
    decreases n,
{
    if k < n {
        lemma_decode_items_err::<I>(src, k, (n - 1) as nat);
    }
}

/// Without the bytes behind a run of items the same run is decoded.
pub proof fn lemma_decode_items_prefix<I: FromBuf>(src: Seq<u8>, n: nat, m: int)
    requires
        decode_items::<I>(src, n) matches Ok(items) && items_len::<I>(items) <= m <= src.len(),
    ensures
        decode_items::<I>(src.take(m), n) == decode_items::<I>(src, n),
    decreases n,
{
    if n > 0 {
        let all = decode_items::<I>(src, n)->Ok_0;
        let items = decode_items::<I>(src, (n - 1) as nat)->Ok_0;
        let at = items_len::<I>(items) as int;
        let item = I::decode(src.skip(at))->Ok_0;
        assert(all == items.push(item));
        lemma_items_len_push::<I>(items, item);
        lemma_decode_items_fits::<I>(src, n);
        lemma_decode_items_prefix::<I>(src, (n - 1) as nat, m);
        I::lemma_decode_prefix(src.skip(at), m - at);
        assert(src.take(m).skip(at) =~= src.skip(at).take(m - at));
    }
}

/// A run of items that is one byte short asks for more bytes.
pub proof fn lemma_decode_items_short<I: FromBuf>(src: Seq<u8>, n: nat)
    requires
        decode_items::<I>(src, n) matches Ok(items) && items_len::<I>(items) >= 1,
    ensures
        decode_items::<I>(
            src.take(items_len::<I>(decode_items::<I>(src, n)->Ok_0) - 1),
            n,
        ) == Err::<Seq<I::V>, Error>(Error::More),
    decreases n,
{
    if n > 0 {
        let all = decode_items::<I>(src, n)->Ok_0;
        let items = decode_items::<I>(src, (n - 1) as nat)->Ok_0;
        let at = items_len::<I>(items) as int;
        let item = I::decode(src.skip(at))->Ok_0;
        let m = items_len::<I>(all) - 1;
        assert(all == items.push(item));
        lemma_items_len_push::<I>(items, item);
        lemma_decode_items_fits::<I>(src, n);
        if I::wire_len(item) >= 1 {
            lemma_decode_items_prefix::<I>(src, (n - 1) as nat, m);
            I::lemma_decode_short(src.skip(at));
            assert(src.take(m).skip(at) =~= src.skip(at).take(m - at));
        } else {
            lemma_decode_items_short::<I>(src, (n - 1) as nat);
        }
    }
}

/// What `items` take together on the wire.
pub fn items_shift<I: Shift>(items: &Vec<I>) -> (n: usize)
    requires
        items_len::<I>(views(items@)) <= usize::MAX,
    ensures
        n == items_len::<I>(views(items@)),
{
    let mut total: usize = 0;
    let mut i: usize = 0;
    let ghost all = views(items@);
    assert(all.take(0) =~= Seq::<I::V>::empty());
    while i < items.len()
        invariant
            i <= items@.len(),
            all == views(items@),
            total == items_len::<I>(all.take(i as int)),
            items_len::<I>(all) <= usize::MAX,
        decreases items@.len() - i,
    {
        proof {
            lemma_items_len_take::<I>(all, i + 1);
            assert(all.take(i + 1).drop_last() =~= all.take(i as int));
        }
        total = total + items[i].shift();
        i = i + 1;
    }
    assert(all.take(i as int) =~= all);
    total
}

/// Decodes `count` items one behind the other from the front of `src`.
pub fn items_from_buf<I: FromBuf>(src: &[u8], count: usize) -> (r: Result<Vec<I>, Error>)
    ensures
        r matches Ok(items) ==> decode_items::<I>(src@, count as nat) == Ok::<Seq<I::V>, Error>(
            views(items@),
        ),
        r matches Err(e) ==> decode_items::<I>(src@, count as nat) == Err::<Seq<I::V>, Error>(e),
{
    let mut pos: usize = 0;
    let mut items: Vec<I> = Vec::new();
    let mut i: usize = 0;
    assert(views(items@) =~= Seq::<I::V>::empty());
    while i < count
        invariant
            i <= count,
            pos <= src@.len(),
            i == items@.len(),
            decode_items::<I>(src@, i as nat) == Ok::<Seq<I::V>, Error>(views(items@)),
            pos == items_len::<I>(views(items@)),
        decreases count - i,
    {
        let item = match I::from_buf(&src[pos..src.len()]) {
            Ok(item) => item,
            Err(e) => {
                proof {
                    assert(decode_items::<I>(src@, (i + 1) as nat) == Err::<Seq<I::V>, Error>(e));
                    lemma_decode_items_err::<I>(src@, (i + 1) as nat, count as nat);
                }
                return Err(e);
            },
        };
        proof {
            I::lemma_decode_fits(src@.skip(pos as int));
            lemma_items_len_push::<I>(views(items@), item@);
            assert(views(items@.push(item)) =~= views(items@).push(item@));
        }
        pos = pos + item.shift();
        items.push(item);
        i = i + 1;
    }
    Ok(items)
}

impl<I: Shift + FromBuf> Shift for RedisList<I> {
    /// The width of the header and the widths of the items.
    open spec fn wire_len(v: RedisListView<I::V>) -> nat {
        Length::wire_len(v.length) + items_len::<I>(v.items)
    }

    fn shift(&self) -> (n: usize) {
        self.length.shift() + items_shift(&self.items)
    }
}

impl<I: Shift + FromBuf> FromBuf for RedisList<I> {
    /// A length header, then as many items as it counts.
    open spec fn decode(src: Seq<u8>) -> Result<RedisListView<I::V>, Error> {
        match Length::required(Length::decode(src)) {
            Err(e) => Err(e),
            Ok(length) => match decode_items::<I>(
                src.skip(Length::wire_len(length) as int),
                length.value(),
            ) {
                Err(e) => Err(e),
                Ok(items) => Ok(RedisListView { length, items }),
            },
        }
    }

    proof fn lemma_decode_fits(src: Seq<u8>) {
        if let Ok(length) = Length::decode(src) {
            lemma_decode_items_fits::<I>(src.skip(Length::wire_len(length) as int), length.value());
        }
    }

    proof fn lemma_decode_prefix(src: Seq<u8>, n: int) {
        let length = Length::decode(src)->Ok_0;
        let at = Length::wire_len(length) as int;
        Length::lemma_decode_prefix(src, n);
        lemma_decode_items_prefix::<I>(src.skip(at), length.value(), n - at);
        assert(src.take(n).skip(at) =~= src.skip(at).take(n - at));
    }

    proof fn lemma_decode_short(src: Seq<u8>) {
        let length = Length::decode(src)->Ok_0;
        let at = Length::wire_len(length) as int;
        let items = decode_items::<I>(src.skip(at), length.value())->Ok_0;
        let n = at + items_len::<I>(items) - 1;
        lemma_decode_items_fits::<I>(src.skip(at), length.value());
        if items_len::<I>(items) >= 1 {
            Length::lemma_decode_prefix(src, n);
            lemma_decode_items_short::<I>(src.skip(at), length.value());
            assert(src.take(n).skip(at) =~= src.skip(at).take(n - at));
        } else {
            Length::lemma_decode_short(src);
        }
    }

    fn from_buf(src: &[u8]) -> (r: Result<RedisList<I>, Error>)
        ensures
            r matches Ok(v) ==> v@.wf(),
    {
        let length = match Length::from_buf_required(src) {
            Ok(length) => length,
            Err(e) => return Err(e),
        };
        proof {
            Length::lemma_decode_fits(src@);
            lemma_decode_items_fits::<I>(
                src@.skip(Length::wire_len(length) as int),
                length.value(),
            );
        }
        let items = match items_from_buf(&src[length.shift()..src.len()], length.length()) {
            Ok(items) => items,
            Err(e) => return Err(e),
        };
        Ok(RedisList { length, items })
    }
}

/// An item of a list or of a set: one string.
#[derive(Clone, Debug, PartialEq, Eq)]
pub struct LinkedListItem(pub RedisString);

impl View for LinkedListItem {
    type V = RedisStringView;

    open spec fn view(&self) -> RedisStringView {
        self.0@
    }
}

impl Shift for LinkedListItem {
    open spec fn wire_len(v: RedisStringView) -> nat {
        RedisString::wire_len(v)
    }

    fn shift(&self) -> (n: usize) {
        self.0.shift()
    }
}

impl FromBuf for LinkedListItem {
    open spec fn decode(src: Seq<u8>) -> Result<RedisStringView, Error> {
        RedisString::decode(src)
    }

    proof fn lemma_decode_fits(src: Seq<u8>) {
        RedisString::lemma_decode_fits(src);
    }

    proof fn lemma_decode_prefix(src: Seq<u8>, n: int) {
        RedisString::lemma_decode_prefix(src, n);
    }

    proof fn lemma_decode_short(src: Seq<u8>) {
        RedisString::lemma_decode_short(src);
    }

    fn from_buf(src: &[u8]) -> (r: Result<LinkedListItem, Error>)
        ensures
            r matches Ok(v) ==> v@.wf(),
    {
        match RedisString::from_buf(src) {
            Ok(rstr) => Ok(LinkedListItem(rstr)),
            Err(e) => Err(e),
        }
    }
}

/// Two strings, the second right behind the first.
pub open spec fn decode_pair(src: Seq<u8>) -> Result<(RedisStringView, RedisStringView), Error> {
    match RedisString::decode(src) {
        Err(e) => Err(e),
        Ok(first) => match RedisString::decode(src.skip(RedisString::wire_len(first) as int)) {
            Err(e) => Err(e),
            Ok(second) => Ok((first, second)),
        },
    }
}

/// The bytes that two strings take together.
pub open spec fn pair_len(pair: (RedisStringView, RedisStringView)) -> nat {
    RedisString::wire_len(pair.0) + RedisString::wire_len(pair.1)
}

/// A decoded pair lies within the input.
pub proof fn lemma_decode_pair_fits(src: Seq<u8>)
    ensures
        decode_pair(src) matches Ok(pair) ==> pair_len(pair) <= src.len(),
{
    RedisString::lemma_decode_fits(src);
    if let Ok(first) = RedisString::decode(src) {
        RedisString::lemma_decode_fits(src.skip(RedisString::wire_len(first) as int));
    }
}

/// Bytes behind a pair do not change what is decoded.
pub proof fn lemma_decode_pair_prefix(src: Seq<u8>, n: int)
    requires
        decode_pair(src) matches Ok(pair) && pair_len(pair) <= n <= src.len(),
    ensures
        decode_pair(src.take(n)) == decode_pair(src),
{
    let first = RedisString::decode(src)->Ok_0;
    let at = RedisString::wire_len(first) as int;
    RedisString::lemma_decode_prefix(src, n);
    RedisString::lemma_decode_prefix(src.skip(at), n - at);
    assert(src.take(n).skip(at) =~= src.skip(at).take(n - at));
}

/// A pair that is one byte short asks for more bytes.
pub proof fn lemma_decode_pair_short(src: Seq<u8>)
    requires
        decode_pair(src) is Ok,
    ensures
        decode_pair(src.take(pair_len(decode_pair(src)->Ok_0) - 1)) == Err::<
            (RedisStringView, RedisStringView),
            Error,
        >(Error::More),
{
    let first = RedisString::decode(src)->Ok_0;
    let at = RedisString::wire_len(first) as int;
    let n = pair_len(decode_pair(src)->Ok_0) - 1;
    lemma_decode_pair_fits(src);
    RedisString::lemma_decode_prefix(src, n);
    RedisString::lemma_decode_short(src.skip(at));
    assert(src.take(n).skip(at) =~= src.skip(at).take(n - at));
}

/// Decodes two strings, the second right behind the first.
pub fn pair_from_buf(src: &[u8]) -> (r: Result<(RedisString, RedisString), Error>)
    ensures
        r matches Ok(pair) ==> decode_pair(src@) == Ok::<(RedisStringView, RedisStringView), Error>(
            (pair.0@, pair.1@),
        ) && pair.0@.wf() && pair.1@.wf(),
        r matches Err(e) ==> decode_pair(src@) == Err::<(RedisStringView, RedisStringView), Error>(
            e,
        ),
{
    let first = match RedisString::from_buf(src) {
        Ok(first) => first,
        Err(e) => return Err(e),
    };
    proof {
        RedisString::lemma_decode_fits(src@);
    }
    let second = match RedisString::from_buf(&src[first.shift()..src.len()]) {
        Ok(second) => second,
        Err(e) => return Err(e),
    };
    Ok((first, second))
}

/// An item of a sorted set: the member, then its score as decimal text.
#[derive(Clone, Debug, PartialEq, Eq)]
pub struct ZSetItem {
    pub member: RedisString,
    pub score: RedisString,
}

/// What a [`ZSetItem`] holds.
pub struct ZSetItemView {
    pub member: RedisStringView,
    pub score: RedisStringView,
}

impl View for ZSetItem {
    type V = ZSetItemView;

    open spec fn view(&self) -> ZSetItemView {
        ZSetItemView { member: self.member@, score: self.score@ }
    }
}

impl Shift for ZSetItem {
    open spec fn wire_len(v: ZSetItemView) -> nat {
        RedisString::wire_len(v.member) + RedisString::wire_len(v.score)
    }

    fn shift(&self) -> (n: usize) {
        self.member.shift() + self.score.shift()
    }
}

impl FromBuf for ZSetItem {
    open spec fn decode(src: Seq<u8>) -> Result<ZSetItemView, Error> {
        match decode_pair(src) {
            Err(e) => Err(e),
            Ok(pair) => Ok(ZSetItemView { member: pair.0, score: pair.1 }),
        }
    }

    proof fn lemma_decode_fits(src: Seq<u8>) {
        lemma_decode_pair_fits(src);
    }

    proof fn lemma_decode_prefix(src: Seq<u8>, n: int) {
        lemma_decode_pair_prefix(src, n);
    }

    proof fn lemma_decode_short(src: Seq<u8>) {
        lemma_decode_pair_short(src);
    }

    fn from_buf(src: &[u8]) -> (r: Result<ZSetItem, Error>)
        ensures
            r matches Ok(v) ==> v@.member.wf() && v@.score.wf(),
    {
        match pair_from_buf(src) {
            Ok((member, score)) => Ok(ZSetItem { member, score }),
            Err(e) => Err(e),
        }
    }
}

/// An item of a hash: the field, then its value.
#[derive(Clone, Debug, PartialEq, Eq)]
pub struct HashItem {
    pub key: RedisString,
    pub value: RedisString,
}

/// What a [`HashItem`] holds.
pub struct HashItemView {
    pub key: RedisStringView,
    pub value: RedisStringView,
}

impl View for HashItem {
    type V = HashItemView;

    open spec fn view(&self) -> HashItemView {
        HashItemView { key: self.key@, value: self.value@ }
    }
}

impl Shift for HashItem {
    open spec fn wire_len(v: HashItemView) -> nat {
        RedisString::wire_len(v.key) + RedisString::wire_len(v.value)
    }

    fn shift(&self) -> (n: usize) {
        self.key.shift() + self.value.shift()
    }
}

impl FromBuf for HashItem {
    open spec fn decode(src: Seq<u8>) -> Result<HashItemView, Error> {
        match decode_pair(src) {
            Err(e) => Err(e),
            Ok(pair) => Ok(HashItemView { key: pair.0, value: pair.1 }),
        }
    }

    proof fn lemma_decode_fits(src: Seq<u8>) {
        lemma_decode_pair_fits(src);
    }

    proof fn lemma_decode_prefix(src: Seq<u8>, n: int) {
        lemma_decode_pair_prefix(src, n);
    }

    proof fn lemma_decode_short(src: Seq<u8>) {
        lemma_decode_pair_short(src);
    }

    fn from_buf(src: &[u8]) -> (r: Result<HashItem, Error>)
        ensures
            r matches Ok(v) ==> v@.key.wf() && v@.value.wf(),
    {
        match pair_from_buf(src) {
            Ok((key, value)) => Ok(HashItem { key, value }),
            Err(e) => Err(e),
        }
    }
}

/// Bytes added behind a run of decoded items do not change what is decoded.
pub proof fn lemma_decode_items_extend<I: Settled>(src: Seq<u8>, n: nat, more: Seq<u8>)
    requires
        decode_items::<I>(src, n) is Ok,
    ensures
        decode_items::<I>(src + more, n) == decode_items::<I>(src, n),
    decreases n,
{
    if n > 0 {
        let items = decode_items::<I>(src, (n - 1) as nat)->Ok_0;
        let at = items_len::<I>(items) as int;
        lemma_decode_items_fits::<I>(src, (n - 1) as nat);
        lemma_decode_items_extend::<I>(src, (n - 1) as nat, more);
        I::lemma_decode_extend(src.skip(at), more);
        assert((src + more).skip(at) =~= src.skip(at) + more);
    }
}

impl<I: Settled> Settled for RedisList<I> {
    proof fn lemma_decode_extend(src: Seq<u8>, more: Seq<u8>) {
        let length = Length::decode(src)->Ok_0;
        let at = Length::wire_len(length) as int;
        Length::lemma_decode_extend(src, more);
        lemma_decode_items_extend::<I>(src.skip(at), length.value(), more);
        assert((src + more).skip(at) =~= src.skip(at) + more);
    }
}

impl Settled for LinkedListItem {
    proof fn lemma_decode_extend(src: Seq<u8>, more: Seq<u8>) {
        RedisString::lemma_decode_extend(src, more);
    }
}

/// Bytes added behind a decoded pair do not change what is decoded.
pub proof fn lemma_decode_pair_extend(src: Seq<u8>, more: Seq<u8>)
    requires
        decode_pair(src) is Ok,
    ensures
        decode_pair(src + more) == decode_pair(src),
{
    let first = RedisString::decode(src)->Ok_0;
    let at = RedisString::wire_len(first) as int;
    RedisString::lemma_decode_fits(src);
    RedisString::lemma_decode_extend(src, more);
    RedisString::lemma_decode_extend(src.skip(at), more);
    assert((src + more).skip(at) =~= src.skip(at) + more);
}

impl Settled for ZSetItem {
    proof fn lemma_decode_extend(src: Seq<u8>, more: Seq<u8>) {
        lemma_decode_pair_extend(src, more);
    }
}

impl Settled for HashItem {
    proof fn lemma_decode_extend(src: Seq<u8>, more: Seq<u8>) {
        lemma_decode_pair_extend(src, more);
    }
}

/// Whether `r` is anything but the signal that a kind does not apply.
pub open spec fn applies<T>(r: Result<T, Error>) -> bool {
    r != Err::<T, Error>(Error::Other)
}

/// Whether the decoder of `I` never says that its kind does not apply.
pub open spec fn always_applies<I: FromBuf>() -> bool {
    forall|s: Seq<u8>| applies(#[trigger] I::decode(s))
}

/// Items whose decoder always applies decode to a run that applies.
pub proof fn items_apply<I: FromBuf>(s: Seq<u8>, n: nat)
    requires
        always_applies::<I>(),
    ensures
        applies(decode_items::<I>(s, n)),
    decreases n,
{
    if n > 0 {
        items_apply::<I>(s, (n - 1) as nat);
        if let Ok(items) = decode_items::<I>(s, (n - 1) as nat) {
            assert(applies(I::decode(s.skip(items_len::<I>(items) as int))));
        }
    }
}


} // verus!
