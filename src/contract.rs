use vstd::prelude::*;
use vstd::slice::slice_to_vec;
use vstd::utf8::{decode_utf8, encode_utf8, valid_utf8};

use crate::error::AuctionError;
use crate::keys::{key_equal, key_lt, lemma_key_lt_irreflexive, lemma_key_lt_push, lemma_key_lt_total, lemma_key_lt_transitive};
use crate::msg::{is_valid_name, valid_name, CreateMsg, DetailsResponse, ListResponse};
use crate::state::{expired_at, Auction, AuctionModel, Balance, BalanceModel, BlockInfo, Expiration};
use crate::store::{all_auction_ids, all_utf8, first_n, keys_from, opt_key, range_spec, strictly_ascending, AuctionStore};

verus! {

/// The most auction names that one listing returns.
pub const MAX_LIMIT: u32 = 30;

/// The number of auction names that a listing returns when no limit is given.
pub const DEFAULT_LIMIT: u32 = 10;

/// An instruction for the token contract `token` to move `amount` of its
/// tokens, held by this contract, to `recipient`.
#[derive(Debug)]
pub struct Transfer {
    pub token: Vec<u8>,
    pub recipient: Vec<u8>,
    pub amount: u128,
}

pub struct TransferModel {
    pub token: Seq<u8>,
    pub recipient: Seq<u8>,
    pub amount: u128,
}

impl View for Transfer {
    type V = TransferModel;

    open spec fn view(&self) -> TransferModel {
        TransferModel { token: self.token@, recipient: self.recipient@, amount: self.amount }
    }
}

pub open spec fn transfers_view(t: Seq<Transfer>) -> Seq<TransferModel> {
    t.map_values(|x: Transfer| x@)
}

/// The store key of an auction name: its UTF-8 bytes.
pub open spec fn id_key(id: Seq<char>) -> Seq<u8> {
    encode_utf8(id)
}

/// What returning `coin` to `to` takes: one transfer, or none for an empty balance.
pub open spec fn refund(to: Seq<u8>, coin: BalanceModel) -> Seq<TransferModel> {
    if coin.amount == 0 {
        Seq::empty()
    } else {
        seq![TransferModel { token: coin.token, recipient: to, amount: coin.amount }]
    }
}

/// A new auction opened by `sender` with `balance` in escrow.
pub open spec fn opened(sender: Seq<u8>, expires: Expiration, balance: BalanceModel) -> AuctionModel {
    AuctionModel { winner: sender, source: sender, expires, balance }
}

/// Auction `a` after `bidder` outbid it with `bid`.
pub open spec fn outbid(a: AuctionModel, bidder: Seq<u8>, bid: BalanceModel) -> AuctionModel {
    AuctionModel { winner: bidder, source: a.source, expires: a.expires, balance: bid }
}

/// A bid of `bid` may replace the balance of `a` in a block at `height` and `time`.
pub open spec fn bid_accepted(a: AuctionModel, bid: BalanceModel, height: u64, time: u64) -> bool {
    &&& !expired_at(a.expires, height, time)
    &&& bid.token == a.balance.token
    &&& bid.amount > a.balance.amount
}

/// Builds the transfer that returns `coin` to `to`; an empty balance needs none.
pub fn send_tokens(to: &Vec<u8>, coin: &Balance) -> (r: Vec<Transfer>)
    ensures
        transfers_view(r@) == refund(to@, coin@),
{
    if coin.is_empty() {
        let r: Vec<Transfer> = Vec::new();
        assert(transfers_view(r@) =~= refund(to@, coin@));
        r
    } else {
        let token = coin.token.clone();
        let recipient = to.clone();
        assert(token@ =~= coin.token@);
        assert(recipient@ =~= to@);
        let r = vec![Transfer { token, recipient, amount: coin.amount }];
        assert(transfers_view(r@) =~= refund(to@, coin@));
        r
    }
}

fn id_bytes(id: &String) -> (r: Vec<u8>)
    ensures
        r@ == id_key(id@),
{
    slice_to_vec(id.as_str().as_bytes())
}

/// Opens auction `msg.id` with `balance` in escrow, held by `sender`.
pub fn try_create(
    store: &mut AuctionStore,
    block: &BlockInfo,
    msg: CreateMsg,
    balance: Balance,
    sender: Vec<u8>,
) -> (r: Result<(), AuctionError>)
    requires
        old(store).wf(),
    ensures
        final(store).wf(),
        final(store).namespace_spec() == old(store).namespace_spec(),
        r is Err ==> final(store)@ == old(store)@,
        !valid_name(id_key(msg.id@)) ==> (r matches Err(AuctionError::InvalidIdentifier { id }) && id@
            == msg.id@),
        valid_name(id_key(msg.id@)) && expired_at(msg.expires, block.height, block.time) ==> (r matches Err(
            AuctionError::AlreadyExpired { id },
        ) && id@ == msg.id@),
        valid_name(id_key(msg.id@)) && !expired_at(msg.expires, block.height, block.time)
            && old(store)@.contains_key(id_key(msg.id@)) ==> (r matches Err(
            AuctionError::AlreadyExists { id },
        ) && id@ == msg.id@),
        valid_name(id_key(msg.id@)) && !expired_at(msg.expires, block.height, block.time)
            && !old(store)@.contains_key(id_key(msg.id@)) ==> r is Ok && final(store)@ == old(
            store,
        )@.insert(id_key(msg.id@), opened(sender@, msg.expires, balance@)),
{
    if !is_valid_name(msg.id.as_str()) {
        return Err(AuctionError::InvalidIdentifier { id: msg.id });
    }
    if msg.expires.is_expired(block) {
        return Err(AuctionError::AlreadyExpired { id: msg.id });
    }
    let source = sender.clone();
    assert(source@ =~= sender@);
    let auction = Auction { winner: sender, source, expires: msg.expires, balance };
    let key = id_bytes(&msg.id);
    match store.conditional_create(key, auction) {
        Ok(()) => Ok(()),
        Err(_) => Err(AuctionError::AlreadyExists { id: msg.id }),
    }
}

/// Outbids auction `id` with `token`, offered by `sender`. On success the
/// previous balance goes back to the previous winner through the returned
/// transfers.
pub fn try_bid(
    store: &mut AuctionStore,
    block: &BlockInfo,
    token: Balance,
    id: String,
    sender: Vec<u8>,
) -> (r: Result<Vec<Transfer>, AuctionError>)
    requires
        old(store).wf(),
    ensures
        final(store).wf(),
        final(store).namespace_spec() == old(store).namespace_spec(),
        r is Err ==> final(store)@ == old(store)@,
        r is Ok ==> old(store)@.contains_key(id_key(id@)) && final(store)@[id_key(id@)].balance.amount > old(
            store,
        )@[id_key(id@)].balance.amount && final(store)@[id_key(id@)].source == old(store)@[id_key(
            id@,
        )].source && final(store)@[id_key(id@)].expires == old(store)@[id_key(id@)].expires,
        !old(store)@.contains_key(id_key(id@)) ==> (r matches Err(AuctionError::NotFound { id: e }) && e@
            == id@),
        old(store)@.contains_key(id_key(id@)) && expired_at(
            old(store)@[id_key(id@)].expires,
            block.height,
            block.time,
        ) ==> (r matches Err(AuctionError::AuctionExpired { id: e }) && e@ == id@),
        old(store)@.contains_key(id_key(id@)) && !expired_at(
            old(store)@[id_key(id@)].expires,
            block.height,
            block.time,
        ) && token@.token != old(store)@[id_key(id@)].balance.token ==> (r matches Err(
            AuctionError::TokenMismatch { id: e, expected, offered },
        ) && e@ == id@ && expected@ == old(store)@[id_key(id@)].balance.token && offered@ == token@.token),
        old(store)@.contains_key(id_key(id@)) && !expired_at(
            old(store)@[id_key(id@)].expires,
            block.height,
            block.time,
        ) && token@.token == old(store)@[id_key(id@)].balance.token && token.amount <= old(
            store,
        )@[id_key(id@)].balance.amount ==> (r matches Err(
            AuctionError::BidTooLow { id: e, current, bid },
        ) && e@ == id@ && current == old(store)@[id_key(id@)].balance.amount && bid == token.amount),
        old(store)@.contains_key(id_key(id@)) && bid_accepted(
            old(store)@[id_key(id@)],
            token@,
            block.height,
            block.time,
        ) ==> r is Ok && transfers_view(r->Ok_0@) == refund(
            old(store)@[id_key(id@)].winner,
            old(store)@[id_key(id@)].balance,
        ) && final(store)@ == old(store)@.insert(
            id_key(id@),
            outbid(old(store)@[id_key(id@)], sender@, token@),
        ),
{
    let key = id_bytes(&id);
    let current = match store.load(key.as_slice()) {
        Some(a) => a,
        None => {
            return Err(AuctionError::NotFound { id });
        },
    };
    if current.is_expired(block) {
        return Err(AuctionError::AuctionExpired { id });
    }
    if !key_equal(current.balance.token.as_slice(), token.token.as_slice()) {
        let expected = current.balance.token.clone();
        assert(expected@ =~= current.balance.token@);
        return Err(AuctionError::TokenMismatch { id, expected, offered: token.token });
    }
    if current.balance.amount >= token.amount {
        return Err(AuctionError::BidTooLow { id, current: current.balance.amount, bid: token.amount });
    }
    let messages = send_tokens(&current.winner, &current.balance);
    let source = current.source.clone();
    assert(source@ =~= current.source@);
    let next = Auction { winner: sender, source, expires: current.expires, balance: token };
    match store.conditional_update(key.as_slice(), next) {
        Ok(()) => Ok(messages),
        Err(_) => Err(AuctionError::NotFound { id }),
    }
}

/// The state of auction `id`.
pub fn query_details(store: &AuctionStore, id: String) -> (r: Result<DetailsResponse, AuctionError>)
    requires
        store.wf(),
    ensures
        !store@.contains_key(id_key(id@)) ==> (r matches Err(AuctionError::NotFound { id: e }) && e@ == id@),
        store@.contains_key(id_key(id@)) ==> (r matches Ok(d) && d.id@ == id@ && d.winner@
            == store@[id_key(id@)].winner && d.source@ == store@[id_key(id@)].source && d.expires
            == store@[id_key(id@)].expires && d.balance@ == store@[id_key(id@)].balance),
{
    let key = id_bytes(&id);
    match store.load(key.as_slice()) {
        None => Err(AuctionError::NotFound { id }),
        Some(a) => {
            let a = a.duplicate();
            Ok(DetailsResponse { id, winner: a.winner, source: a.source, expires: a.expires, balance: a.balance })
        },
    }
}

/// An optional name as characters.
pub open spec fn opt_chars(o: Option<String>) -> Option<Seq<char>> {
    match o {
        Some(s) => Some(s@),
        None => None,
    }
}

/// The first store key that a listing after `start_after` may return: the
/// name's bytes followed by a zero byte.
pub open spec fn list_start(start_after: Option<Seq<char>>) -> Option<Seq<u8>> {
    match start_after {
        Some(s) => Some(id_key(s).push(0)),
        None => None,
    }
}

/// How many names a listing returns at most.
pub open spec fn list_limit(limit: Option<u32>) -> nat {
    match limit {
        Some(n) => if n < MAX_LIMIT {
            n as nat
        } else {
            MAX_LIMIT as nat
        },
        None => DEFAULT_LIMIT as nat,
    }
}

/// The keys that a listing reads, in ascending order.
pub open spec fn list_window(keys: Seq<Seq<u8>>, start_after: Option<Seq<char>>, limit: Option<u32>) -> Seq<Seq<u8>> {
    range_spec(keys, list_start(start_after), list_limit(limit))
}

/// The number of names that a listing with `limit` returns at most.
pub fn list_bound(limit: Option<u32>) -> (r: u32)
    ensures
        r as nat == list_limit(limit),
{
    let requested: u32 = match limit {
        Some(n) => n,
        None => DEFAULT_LIMIT,
    };
    if requested < MAX_LIMIT {
        requested
    } else {
        MAX_LIMIT
    }
}

/// Relies on cw0::calc_range_start_string, which turns a name into its
/// UTF-8 bytes followed by a single zero byte.
#[verifier::external_body]
fn cw0_range_start(start_after: Option<String>) -> (r: Option<Vec<u8>>)
    ensures
        opt_key(r) == list_start(opt_chars(start_after)),
{
    cw0::calc_range_start_string(start_after)
}

/// Lists auction names after `start_after` (exclusive), in ascending byte
/// order, at most `limit` of them (10 when not given, never more than 30).
pub fn query_list(store: &AuctionStore, start_after: Option<String>, limit: Option<u32>) -> (r: Result<
    ListResponse,
    AuctionError,
>)
    requires
        store.wf(),
    ensures
        all_utf8(list_window(store.keys(), opt_chars(start_after), limit)) ==> (r matches Ok(resp)
            && resp.auctions@.map_values(|s: String| s@) == list_window(
            store.keys(),
            opt_chars(start_after),
            limit,
        ).map_values(|k: Seq<u8>| decode_utf8(k))),
        !all_utf8(list_window(store.keys(), opt_chars(start_after), limit)) ==> (r matches Err(
            AuctionError::CorruptState { key },
        ) && list_window(store.keys(), opt_chars(start_after), limit).contains(key@) && !valid_utf8(
            key@,
        )),
{
    let start = cw0_range_start(start_after);
    let bound = list_bound(limit);
    match all_auction_ids(store, start, bound as usize) {
        Ok(auctions) => Ok(ListResponse { auctions }),
        Err(e) => Err(e),
    }
}

/// Dropping the keys below `start` from an ascending sequence leaves a
/// suffix whose every key is at or above `start`.
proof fn lemma_keys_from_suffix(keys: Seq<Seq<u8>>, start: Seq<u8>) -> (p: int)
    requires
        strictly_ascending(keys),
    ensures
        0 <= p <= keys.len(),
        keys_from(keys, start) == keys.skip(p),
        forall|j: int| p <= j < keys.len() ==> !key_lt(#[trigger] keys[j], start),
    decreases keys.len(),
{
    if keys.len() == 0 {
        assert(keys.skip(0) =~= keys);
        0
    } else if key_lt(keys[0], start) {
        let rest = keys.drop_first();
        assert forall|a: int, b: int| 0 <= a < b < rest.len() implies key_lt(#[trigger] rest[a], #[trigger] rest[b]) by {
            assert(key_lt(keys[a + 1], keys[b + 1]));
        }
        let q = lemma_keys_from_suffix(rest, start);
        assert(keys.skip(q + 1) =~= rest.skip(q));
        assert forall|j: int| q + 1 <= j < keys.len() implies !key_lt(#[trigger] keys[j], start) by {
            assert(keys[j] == rest[j - 1]);
        }
        q + 1
    } else {
        assert(keys.skip(0) =~= keys);
        assert forall|j: int| 0 <= j < keys.len() implies !key_lt(#[trigger] keys[j], start) by {
            if j > 0 && key_lt(keys[j], start) {
                assert(key_lt(keys[0], keys[j]));
                lemma_key_lt_transitive(keys[0], keys[j], start);
            }
        }
        0
    }
}

/// A listing returns at most its limit of names, and never more than
/// `MAX_LIMIT`; it returns stored keys only, in strictly ascending order.
/// Without a starting point it returns the smallest stored keys: any stored
/// key that it leaves out sorts after every key that it returns. With a
/// starting name, every key that it returns sorts after that name, so the
/// name itself is never among the names returned.
pub proof fn lemma_list_bounded(store: &AuctionStore, start_after: Option<Seq<char>>, limit: Option<u32>)
    requires
        store.wf(),
    ensures
        list_window(store.keys(), start_after, limit).len() <= list_limit(limit) <= MAX_LIMIT,
        limit is None ==> list_limit(limit) == DEFAULT_LIMIT,
        strictly_ascending(list_window(store.keys(), start_after, limit)),
        forall|i: int|
            0 <= i < list_window(store.keys(), start_after, limit).len() ==> store@.contains_key(
                #[trigger] list_window(store.keys(), start_after, limit)[i],
            ),
        start_after is None ==> forall|k: Seq<u8>, i: int|
            store@.contains_key(k) && !list_window(store.keys(), start_after, limit).contains(k) && 0 <= i
                < list_window(store.keys(), start_after, limit).len() ==> #[trigger] key_lt(
                list_window(store.keys(), start_after, limit)[i],
                k,
            ),
        start_after matches Some(name) ==> forall|i: int|
            0 <= i < list_window(store.keys(), start_after, limit).len() ==> key_lt(
                id_key(name),
                #[trigger] list_window(store.keys(), start_after, limit)[i],
            ) && (valid_utf8(list_window(store.keys(), start_after, limit)[i]) ==> decode_utf8(
                list_window(store.keys(), start_after, limit)[i],
            ) != name),
{
    let keys = store.keys();
    store.lemma_keys_enumerate();
    let n = list_limit(limit);
    let w = list_window(keys, start_after, limit);
    let p = match start_after {
        Some(name) => lemma_keys_from_suffix(keys, id_key(name).push(0)),
        None => 0,
    };
    assert(keys.skip(0) =~= keys);
    let base = keys.skip(p);
    assert(w == first_n(base, n));
    assert forall|i: int| 0 <= i < w.len() implies #[trigger] w[i] == keys[p + i] by {}
    assert forall|a: int, b: int| 0 <= a < b < w.len() implies key_lt(#[trigger] w[a], #[trigger] w[b]) by {
        assert(key_lt(keys[p + a], keys[p + b]));
    }
    assert forall|i: int| 0 <= i < w.len() implies store@.contains_key(#[trigger] w[i]) by {
        assert(keys.contains(keys[p + i]));
    }
    if start_after is None {
        assert forall|k: Seq<u8>, i: int|
            store@.contains_key(k) && !w.contains(k) && 0 <= i < w.len() implies #[trigger] key_lt(w[i], k) by {
            assert(p == 0);
            assert(keys.contains(k));
            let j = choose|j: int| 0 <= j < keys.len() && keys[j] == k;
            if j < w.len() {
                assert(w[j] == keys[p + j]);
                assert(w.contains(k));
            }
            assert(w[i] == keys[p + i]);
            assert(key_lt(keys[i], keys[j]));
        }
    }
    if let Some(name) = start_after {
        let s = id_key(name).push(0);
        lemma_key_lt_push(id_key(name), s);
        assert forall|i: int| 0 <= i < w.len() implies key_lt(id_key(name), #[trigger] w[i]) && (valid_utf8(
            w[i],
        ) ==> decode_utf8(w[i]) != name) by {
            let x = keys[p + i];
            assert(w[i] == x);
            assert(!key_lt(x, s));
            lemma_key_lt_push(id_key(name), x);
            lemma_key_lt_total(x, s);
            if x != s {
                lemma_key_lt_transitive(id_key(name), s, x);
            }
            if valid_utf8(x) && decode_utf8(x) == name {
                lemma_key_lt_irreflexive(x);
                vstd::utf8::decode_utf8_encode_utf8(x);
            }
        }
    }
}

} // verus!
