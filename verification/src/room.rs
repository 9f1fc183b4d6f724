//! The room record, the accounts taking part in it, and its well-formedness.

use vstd::prelude::*;

verus! {

/// Smallest stake a room may be created with, in base currency units.
pub const MIN_STAKE: u64 = 50000000;

/// An account identity on the host ledger.
///
/// The id `0` is reserved as the "unset" value: a room's second player and its
/// winner hold it until join and resolution set them.
#[derive(Clone, Copy, PartialEq, Eq, Structural, Debug)]
pub struct AccountId {
    pub id: u64,
}

impl AccountId {
    /// Whether this is the reserved "unset" identity.
    pub open spec fn is_unset(self) -> bool {
        self.id == 0
    }

    /// The reserved "unset" identity.
    pub fn unset() -> (r: AccountId)
        ensures
            r.is_unset(),
    {
        AccountId { id: 0 }
    }

    /// An account identity with the given id.
    pub fn new(id: u64) -> (r: AccountId)
        ensures
            r.id == id,
    {
        AccountId { id }
    }
}

/// Where a room stands in its lifecycle.
///
/// The status only ever advances `Waiting` -> `Processing` -> `Finished`;
/// `Finished` is terminal.
#[derive(Clone, Copy, PartialEq, Eq, Structural, Debug)]
pub enum Status {
    Waiting,
    Processing,
    Finished,
}

impl Default for Status {
    /// A fresh room waits for its second player.
    fn default() -> (r: Status)
        ensures
            r == Status::Waiting,
    {
        Status::Waiting
    }
}

/// One game session: two players' escrowed stakes, the randomness-request
/// seed, and the outcome.
#[derive(Clone, Copy, Debug)]
pub struct Coinflip {
    /// The creator; set at creation, immutable thereafter.
    pub user_1: AccountId,
    /// The joiner; unset until join, set exactly once.
    pub user_2: AccountId,
    /// The stake each player escrows; set once at creation.
    pub amount: u64,
    /// The randomness-request seed; all zero until `play_coinflip` stores it.
    pub force: [u8; 32],
    /// The winning player; unset until resolution.
    pub winner: AccountId,
    /// See [`Status`].
    pub status: Status,
    /// The balance escrowed against this room.
    pub escrow: u64,
}

impl Coinflip {
    /// The invariant every stored room satisfies.
    ///
    /// The escrow holds one stake while the room waits for its second player,
    /// two stakes from join until payout, and nothing after payout. The
    /// winner is one of the two players, and only once the room is finished.
    pub open spec fn wf(self) -> bool {
        &&& self.amount >= MIN_STAKE
        &&& !self.user_1.is_unset()
        &&& match self.status {
            Status::Waiting => {
                &&& self.winner.is_unset()
                &&& if self.user_2.is_unset() {
                    self.escrow == self.amount
                } else {
                    self.escrow == 2 * self.amount
                }
            },
            Status::Processing => {
                &&& !self.user_2.is_unset()
                &&& self.winner.is_unset()
                &&& self.escrow == 2 * self.amount
            },
            Status::Finished => {
                &&& !self.user_2.is_unset()
                &&& self.escrow == 0
                &&& self.winner == self.user_1 || self.winner == self.user_2
            },
        }
    }
}

/// The caller identity behind a `create_coinflip` call.
pub struct CreateCoinflip {
    /// The creator; debited one stake, becomes `user_1`.
    pub user: AccountId,
}

/// The caller identity behind a `join_coinflip` call.
pub struct JoinRoomCoinflip {
    /// The joiner; debited one stake, becomes `user_2`.
    pub user: AccountId,
}

/// The caller identity behind a `play_coinflip` call.
pub struct PlayCoinflip {
    /// The caller; must be the room's creator.
    pub user: AccountId,
}

/// The player identities supplied to `result_coinflip` for verification.
pub struct ResultCoinflip {
    /// Must equal the room's `user_1`.
    pub user_1: AccountId,
    /// Must equal the room's `user_2`.
    pub user_2: AccountId,
}

} // verus!
