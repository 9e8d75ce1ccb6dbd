use vstd::prelude::*;

verus! {

/// When an auction stops taking bids, judged against the current block.
#[derive(Clone, Copy, Debug, PartialEq, Eq, Structural)]
pub enum Expiration {
    /// Reached once the block height is at or above this height.
    AtHeight(u64),
    /// Reached once the block time (seconds) is at or above this time.
    AtTime(u64),
    /// Never reached.
    Never,
}

/// The block in which an operation runs.
#[derive(Debug)]
pub struct BlockInfo {
    pub height: u64,
    pub time: u64,
    pub chain_id: String,
}

/// Whether `e` has been reached at the given block height and time.
pub open spec fn expired_at(e: Expiration, height: u64, time: u64) -> bool {
    match e {
        Expiration::AtHeight(h) => height >= h,
        Expiration::AtTime(t) => time >= t,
        Expiration::Never => false,
    }
}

/// Relies on cw0::Expiration::is_expired, which compares the block height with
/// a height limit and the block time with a time limit (reached when at or
/// above), and never reports `Never` as reached.
#[verifier::external_body]
fn cw0_is_expired(e: &Expiration, block: &BlockInfo) -> (r: bool)
    ensures
        r == expired_at(*e, block.height, block.time),
{
    let outside = match e {
        Expiration::AtHeight(h) => cw0::Expiration::AtHeight(*h),
        Expiration::AtTime(t) => cw0::Expiration::AtTime(*t),
        Expiration::Never => cw0::Expiration::Never {},
    };
    outside.is_expired(
        &cosmwasm_std::BlockInfo { height: block.height, time: block.time, chain_id: block.chain_id.clone() },
    )
}

impl Expiration {
    /// Whether this expiration has been reached in `block`.
    pub fn is_expired(&self, block: &BlockInfo) -> (r: bool)
        ensures
            r == expired_at(*self, block.height, block.time),
    {
        cw0_is_expired(self, block)
    }
}

/// An escrowed amount of one fungible token, named by the canonical address
/// of its token contract.
#[derive(Debug)]
pub struct Balance {
    pub token: Vec<u8>,
    pub amount: u128,
}

pub struct BalanceModel {
    pub token: Seq<u8>,
    pub amount: u128,
}

impl View for Balance {
    type V = BalanceModel;

    open spec fn view(&self) -> BalanceModel {
        BalanceModel { token: self.token@, amount: self.amount }
    }
}

impl Balance {
    /// A balance with nothing in it.
    pub fn is_empty(&self) -> (r: bool)
        ensures
            r == (self.amount == 0),
    {
        self.amount == 0
    }

    pub fn duplicate(&self) -> (r: Balance)
        ensures
            r@ == self@,
    {
        let token = self.token.clone();
        assert(token@ =~= self.token@);
        Balance { token, amount: self.amount }
    }
}

/// One auction: who holds the escrowed balance now, who opened it, and
/// until when it takes bids.
#[derive(Debug)]
pub struct Auction {
    pub winner: Vec<u8>,
    pub source: Vec<u8>,
    pub expires: Expiration,
    pub balance: Balance,
}

pub struct AuctionModel {
    pub winner: Seq<u8>,
    pub source: Seq<u8>,
    pub expires: Expiration,
    pub balance: BalanceModel,
}

impl View for Auction {
    type V = AuctionModel;

    open spec fn view(&self) -> AuctionModel {
        AuctionModel {
            winner: self.winner@,
            source: self.source@,
            expires: self.expires,
            balance: self.balance@,
        }
    }
}

impl Auction {
    /// Whether the auction no longer takes bids in `block`.
    pub fn is_expired(&self, block: &BlockInfo) -> (r: bool)
        ensures
            r == expired_at(self.expires, block.height, block.time),
    {
        self.expires.is_expired(block)
    }

    pub fn duplicate(&self) -> (r: Auction)
        ensures
            r@ == self@,
    {
        let winner = self.winner.clone();
        let source = self.source.clone();
        assert(winner@ =~= self.winner@);
        assert(source@ =~= self.source@);
        Auction { winner, source, expires: self.expires, balance: self.balance.duplicate() }
    }
}

} // verus!
