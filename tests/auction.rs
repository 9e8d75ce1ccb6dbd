use cw20_bid_more::contract::{query_details, query_list, send_tokens, try_bid, try_create};
use cw20_bid_more::error::AuctionError;
use cw20_bid_more::msg::{is_valid_name, CreateMsg};
use cw20_bid_more::state::{Auction, Balance, BlockInfo, Expiration};
use cw20_bid_more::store::{all_auction_ids, AuctionStore, StoreError, PREFIX_AUCTION};

fn block_at(height: u64) -> BlockInfo {
    BlockInfo { height, time: 1_571_797_419, chain_id: "cosmos-testnet-14002".to_string() }
}

fn coin(token: &str, amount: u128) -> Balance {
    Balance { token: token.as_bytes().to_vec(), amount }
}

fn dummy_swap() -> Auction {
    Auction {
        winner: b"recip".to_vec(),
        source: b"source".to_vec(),
        expires: Expiration::Never,
        balance: Balance { token: b"address".to_vec(), amount: 0 },
    }
}

fn create(store: &mut AuctionStore, id: &str, expires: Expiration, balance: Balance, sender: &str, height: u64) -> Result<(), AuctionError> {
    let msg = CreateMsg { id: id.to_string(), expires };
    try_create(store, &block_at(height), msg, balance, sender.as_bytes().to_vec())
}

fn bid(store: &mut AuctionStore, id: &str, balance: Balance, sender: &str, height: u64) -> Result<Vec<cw20_bid_more::contract::Transfer>, AuctionError> {
    try_bid(store, &block_at(height), balance, id.to_string(), sender.as_bytes().to_vec())
}

#[test]
fn test_no_swap_ids() {
    let store = AuctionStore::new(PREFIX_AUCTION);
    let ids = all_auction_ids(&store, None, 10).unwrap();
    assert_eq!(0, ids.len());
}

#[test]
fn test_all_swap_ids() {
    let mut store = AuctionStore::new(PREFIX_AUCTION);
    store.conditional_create(b"lazy".to_vec(), dummy_swap()).unwrap();
    store.conditional_create(b"assign".to_vec(), dummy_swap()).unwrap();
    store.conditional_create(b"zen".to_vec(), dummy_swap()).unwrap();

    let ids = all_auction_ids(&store, None, 10).unwrap();
    assert_eq!(3, ids.len());
    assert_eq!(vec!["assign".to_string(), "lazy".to_string(), "zen".to_string()], ids)
}

#[test]
fn namespace_is_kept() {
    let store = AuctionStore::new(PREFIX_AUCTION);
    assert_eq!("auction", store.namespace());
}

#[test]
fn store_conditional_writes() {
    let mut store = AuctionStore::new(PREFIX_AUCTION);
    assert_eq!(Err(StoreError::NotFound), store.conditional_update(b"abc", dummy_swap()));
    assert!(store.load(b"abc").is_none());
    store.conditional_create(b"abc".to_vec(), dummy_swap()).unwrap();
    let mut other = dummy_swap();
    other.winner = b"someone".to_vec();
    assert_eq!(Err(StoreError::AlreadyExists), store.conditional_create(b"abc".to_vec(), other));
    assert_eq!(b"recip".to_vec(), store.load(b"abc").unwrap().winner);
    let mut next = dummy_swap();
    next.winner = b"next".to_vec();
    store.conditional_update(b"abc", next).unwrap();
    assert_eq!(b"next".to_vec(), store.load(b"abc").unwrap().winner);
}

#[test]
fn range_is_ordered_and_bounded() {
    let mut store = AuctionStore::new(PREFIX_AUCTION);
    for k in ["b", "ab", "a", "c", "ba"] {
        store.conditional_create(k.as_bytes().to_vec(), dummy_swap()).unwrap();
    }
    let all = store.range(None, 10);
    assert_eq!(vec![b"a".to_vec(), b"ab".to_vec(), b"b".to_vec(), b"ba".to_vec(), b"c".to_vec()], all);
    let from_b = store.range(Some(b"b".as_slice()), 2);
    assert_eq!(vec![b"b".to_vec(), b"ba".to_vec()], from_b);
    assert_eq!(Vec::<Vec<u8>>::new(), store.range(Some(b"d".as_slice()), 5));
}

#[test]
fn corrupt_key_fails_listing() {
    let mut store = AuctionStore::new(PREFIX_AUCTION);
    store.conditional_create(vec![0xff, 0xfe, 0x01], dummy_swap()).unwrap();
    store.conditional_create(b"abc".to_vec(), dummy_swap()).unwrap();
    match all_auction_ids(&store, None, 10) {
        Err(AuctionError::CorruptState { key }) => assert_eq!(vec![0xff, 0xfe, 0x01], key),
        other => panic!("unexpected: {:?}", other),
    }
    assert_eq!(vec!["abc".to_string()], all_auction_ids(&store, None, 1).unwrap());
}

#[test]
fn name_length_bounds() {
    assert!(!is_valid_name("sh"));
    assert!(is_valid_name("abc"));
    assert!(is_valid_name("atomic_swap_id_too_l"));
    assert!(!is_valid_name("atomic_swap_id_too_long"));
    // two bytes per character
    assert!(!is_valid_name("ééééééééééé"));
}

#[test]
fn create_rejects_invalid_ids() {
    let mut store = AuctionStore::new(PREFIX_AUCTION);
    for id in ["sh", "atomic_swap_id_too_long"] {
        match create(&mut store, id, Expiration::AtHeight(123456), coin("tokens", 100), "sender0001", 12345) {
            Err(AuctionError::InvalidIdentifier { id: e }) => assert_eq!(id, e),
            other => panic!("unexpected: {:?}", other),
        }
    }
    assert_eq!(0, all_auction_ids(&store, None, 10).unwrap().len());
}

#[test]
fn create_rejects_expired() {
    let mut store = AuctionStore::new(PREFIX_AUCTION);
    match create(&mut store, "swap0001", Expiration::AtTime(1), coin("tokens", 100), "sender0001", 12345) {
        Err(AuctionError::AlreadyExpired { id }) => assert_eq!("swap0001", id),
        other => panic!("unexpected: {:?}", other),
    }
    match create(&mut store, "swap0002", Expiration::AtHeight(12345), coin("tokens", 100), "sender0001", 12345) {
        Err(AuctionError::AlreadyExpired { .. }) => {}
        other => panic!("unexpected: {:?}", other),
    }
    create(&mut store, "swap0003", Expiration::Never, coin("tokens", 100), "sender0001", 12345).unwrap();
}

#[test]
fn second_create_fails_and_keeps_record() {
    let mut store = AuctionStore::new(PREFIX_AUCTION);
    create(&mut store, "swap0001", Expiration::AtHeight(123456), coin("tokens", 100), "sender0001", 12345).unwrap();
    match create(&mut store, "swap0001", Expiration::AtHeight(999999), coin("other", 1), "intruder", 12345) {
        Err(AuctionError::AlreadyExists { id }) => assert_eq!("swap0001", id),
        other => panic!("unexpected: {:?}", other),
    }
    let d = query_details(&store, "swap0001".to_string()).unwrap();
    assert_eq!(b"sender0001".to_vec(), d.winner);
    assert_eq!(b"sender0001".to_vec(), d.source);
    assert_eq!(Expiration::AtHeight(123456), d.expires);
    assert_eq!(b"tokens".to_vec(), d.balance.token);
    assert_eq!(100, d.balance.amount);
}

#[test]
fn bids_must_strictly_increase() {
    let mut store = AuctionStore::new(PREFIX_AUCTION);
    create(&mut store, "swap0001", Expiration::Never, coin("A", 10), "S", 1).unwrap();
    bid(&mut store, "swap0001", coin("A", 11), "B1", 2).unwrap();
    match bid(&mut store, "swap0001", coin("A", 11), "B2", 3) {
        Err(AuctionError::BidTooLow { id, current, bid }) => {
            assert_eq!("swap0001", id);
            assert_eq!(11, current);
            assert_eq!(11, bid);
        }
        other => panic!("unexpected: {:?}", other),
    }
    bid(&mut store, "swap0001", coin("A", 500), "B3", 4).unwrap();
    let d = query_details(&store, "swap0001".to_string()).unwrap();
    assert_eq!(500, d.balance.amount);
    assert_eq!(b"B3".to_vec(), d.winner);
}

#[test]
fn bid_returns_previous_balance_to_previous_winner() {
    let mut store = AuctionStore::new(PREFIX_AUCTION);
    create(&mut store, "swap0001", Expiration::AtTime(2_000_000_000), coin("A", 100), "S", 1).unwrap();
    let t = bid(&mut store, "swap0001", coin("A", 150), "B1", 2).unwrap();
    assert_eq!(1, t.len());
    assert_eq!(b"A".to_vec(), t[0].token);
    assert_eq!(b"S".to_vec(), t[0].recipient);
    assert_eq!(100, t[0].amount);
    let t = bid(&mut store, "swap0001", coin("A", 151), "B2", 3).unwrap();
    assert_eq!(b"B1".to_vec(), t[0].recipient);
    assert_eq!(150, t[0].amount);
    let d = query_details(&store, "swap0001".to_string()).unwrap();
    assert_eq!(b"B2".to_vec(), d.winner);
    assert_eq!(b"S".to_vec(), d.source);
    assert_eq!(Expiration::AtTime(2_000_000_000), d.expires);
}

#[test]
fn bid_on_empty_balance_sends_nothing() {
    let mut store = AuctionStore::new(PREFIX_AUCTION);
    create(&mut store, "free", Expiration::Never, coin("A", 0), "S", 1).unwrap();
    let t = bid(&mut store, "free", coin("A", 1), "B1", 2).unwrap();
    assert!(t.is_empty());
    assert!(send_tokens(&b"x".to_vec(), &coin("A", 0)).is_empty());
    assert_eq!(1, send_tokens(&b"x".to_vec(), &coin("A", 7)).len());
}

#[test]
fn bid_with_other_token_is_refused() {
    let mut store = AuctionStore::new(PREFIX_AUCTION);
    create(&mut store, "swap0001", Expiration::Never, coin("A", 100), "S", 1).unwrap();
    match bid(&mut store, "swap0001", coin("B", 1000), "B1", 2) {
        Err(AuctionError::TokenMismatch { id, expected, offered }) => {
            assert_eq!("swap0001", id);
            assert_eq!(b"A".to_vec(), expected);
            assert_eq!(b"B".to_vec(), offered);
        }
        other => panic!("unexpected: {:?}", other),
    }
    let d = query_details(&store, "swap0001".to_string()).unwrap();
    assert_eq!(b"S".to_vec(), d.winner);
    assert_eq!(100, d.balance.amount);
}

#[test]
fn bid_on_unknown_auction_is_refused() {
    let mut store = AuctionStore::new(PREFIX_AUCTION);
    match bid(&mut store, "nothing", coin("A", 1), "B1", 2) {
        Err(AuctionError::NotFound { id }) => assert_eq!("nothing", id),
        other => panic!("unexpected: {:?}", other),
    }
    match query_details(&store, "nothing".to_string()) {
        Err(AuctionError::NotFound { id }) => assert_eq!("nothing", id),
        other => panic!("unexpected: {:?}", other),
    }
}

#[test]
fn end_to_end_swap0001() {
    let mut store = AuctionStore::new(PREFIX_AUCTION);
    create(&mut store, "swap0001", Expiration::AtHeight(123456), coin("A", 100), "S", 12345).unwrap();

    let t = bid(&mut store, "swap0001", coin("A", 150), "B1", 12346).unwrap();
    assert_eq!(1, t.len());
    assert_eq!(b"S".to_vec(), t[0].recipient);
    assert_eq!(b"A".to_vec(), t[0].token);
    assert_eq!(100, t[0].amount);
    let d = query_details(&store, "swap0001".to_string()).unwrap();
    assert_eq!(b"B1".to_vec(), d.winner);
    assert_eq!(150, d.balance.amount);

    match bid(&mut store, "swap0001", coin("A", 120), "B2", 12347) {
        Err(AuctionError::BidTooLow { .. }) => {}
        other => panic!("unexpected: {:?}", other),
    }
    match bid(&mut store, "swap0001", coin("A", 200), "B2", 123457) {
        Err(AuctionError::AuctionExpired { id }) => assert_eq!("swap0001", id),
        other => panic!("unexpected: {:?}", other),
    }
    let d = query_details(&store, "swap0001".to_string()).unwrap();
    assert_eq!(b"B1".to_vec(), d.winner);
    assert_eq!(b"S".to_vec(), d.source);
    assert_eq!(b"A".to_vec(), d.balance.token);
    assert_eq!(150, d.balance.amount);
}

#[test]
fn list_after_three_creates() {
    let mut store = AuctionStore::new(PREFIX_AUCTION);
    for id in ["zen", "lazy", "assign"] {
        create(&mut store, id, Expiration::Never, coin("A", 1), "S", 1).unwrap();
    }
    let r = query_list(&store, None, None).unwrap();
    assert_eq!(vec!["assign".to_string(), "lazy".to_string(), "zen".to_string()], r.auctions);
}

#[test]
fn list_default_limit_and_start_after() {
    let mut store = AuctionStore::new(PREFIX_AUCTION);
    for i in 0..12 {
        let id = format!("auction{:02}", i);
        create(&mut store, &id, Expiration::Never, coin("A", 1), "S", 1).unwrap();
    }
    let r = query_list(&store, None, None).unwrap();
    assert_eq!(10, r.auctions.len());
    assert_eq!("auction00", r.auctions[0]);
    assert_eq!("auction09", r.auctions[9]);

    let r = query_list(&store, Some("auction03".to_string()), Some(2)).unwrap();
    assert_eq!(vec!["auction04".to_string(), "auction05".to_string()], r.auctions);

    let r = query_list(&store, Some("auction10".to_string()), None).unwrap();
    assert_eq!(vec!["auction11".to_string()], r.auctions);

    let r = query_list(&store, Some("auction0".to_string()), Some(1)).unwrap();
    assert_eq!(vec!["auction00".to_string()], r.auctions);
}

#[test]
fn list_limit_is_capped() {
    let mut store = AuctionStore::new(PREFIX_AUCTION);
    for i in 0..35 {
        let id = format!("auction{:02}", i);
        create(&mut store, &id, Expiration::Never, coin("A", 1), "S", 1).unwrap();
    }
    let r = query_list(&store, None, Some(50)).unwrap();
    assert_eq!(30, r.auctions.len());
    let r = query_list(&store, None, Some(0)).unwrap();
    assert_eq!(0, r.auctions.len());
}

#[test]
fn expiration_checks() {
    let b = block_at(100);
    assert!(Expiration::AtHeight(100).is_expired(&b));
    assert!(!Expiration::AtHeight(101).is_expired(&b));
    assert!(Expiration::AtTime(1_571_797_419).is_expired(&b));
    assert!(!Expiration::AtTime(1_571_797_420).is_expired(&b));
    assert!(!Expiration::Never.is_expired(&b));
}
