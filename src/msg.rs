use vstd::prelude::*;

use vstd::utf8::encode_utf8;

use crate::state::{Balance, Expiration};

verus! {

/// Instantiates the contract; it carries no settings.
#[derive(Debug)]
pub struct InitMsg {}

/// Opens an auction; the escrowed balance and its depositor come with the
/// token transfer that carries this message.
#[derive(Debug)]
pub struct CreateMsg {
    /// A human-readable name for the auction, 3 to 20 bytes of UTF-8 text.
    pub id: String,
    /// When the auction stops taking bids.
    pub expires: Expiration,
}

/// Bids on an auction; the bid balance and the bidder come with the token
/// transfer that carries this message.
#[derive(Debug)]
pub struct BidMsg {
    /// The name of the auction.
    pub id: String,
}

/// What a token transfer to this contract asks for.
#[derive(Debug)]
pub enum ReceiveMsg {
    Create(CreateMsg),
    Bid(BidMsg),
}

#[derive(Debug)]
pub enum QueryMsg {
    /// Lists auction names in ascending order. Answered by a `ListResponse`.
    List { start_after: Option<String>, limit: Option<u32> },
    /// The state of the named auction. Answered by a `DetailsResponse`.
    Details { id: String },
}

#[derive(Debug)]
pub struct ListResponse {
    /// Auction names, in ascending byte order.
    pub auctions: Vec<String>,
}

#[derive(Debug)]
pub struct DetailsResponse {
    pub id: String,
    /// Canonical address that holds the escrowed balance now.
    pub winner: Vec<u8>,
    /// Canonical address that opened the auction.
    pub source: Vec<u8>,
    pub expires: Expiration,
    pub balance: Balance,
}

/// A well-formed auction name: 3 to 20 bytes.
pub open spec fn valid_name(bytes: Seq<u8>) -> bool {
    3 <= bytes.len() <= 20
}

/// Whether `name` may name an auction.
pub fn is_valid_name(name: &str) -> (r: bool)
    ensures
        r == valid_name(encode_utf8(name@)),
{
    let bytes = name.as_bytes();
    if bytes.len() < 3 || bytes.len() > 20 {
        return false;
    }
    true
}

} // verus!
