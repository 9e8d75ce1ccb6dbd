use vstd::prelude::*;

verus! {

/// Why an auction operation was refused. Each kind names the auction it
/// concerns; a refused operation writes nothing.
#[derive(Debug)]
pub enum AuctionError {
    /// The identifier is not 3 to 20 bytes long.
    InvalidIdentifier { id: String },
    /// A new auction's expiration has already been reached.
    AlreadyExpired { id: String },
    /// An auction with this identifier already exists.
    AlreadyExists { id: String },
    /// No auction with this identifier exists.
    NotFound { id: String },
    /// The auction no longer takes bids.
    AuctionExpired { id: String },
    /// The bid is in another token than the auction's balance.
    TokenMismatch { id: String, expected: Vec<u8>, offered: Vec<u8> },
    /// The bid does not exceed the current balance.
    BidTooLow { id: String, current: u128, bid: u128 },
    /// A stored key is not a well-formed identifier.
    CorruptState { key: Vec<u8> },
}

} // verus!
