//! The error taxonomy of the room state machine.

use vstd::prelude::*;

verus! {

/// Every way an operation on a room can fail.
///
/// Validation failures (`InvalidAmount`, `Unauthorized`, `InvalidStatus`,
/// `IdentityMismatch`, `SeedMismatch`) are rejected before any mutation.
/// `StillProcessing` is the expected retry-later outcome of polling for a
/// randomness value that has not been fulfilled yet. `TransferFailed` and
/// `OracleFailed` are adapter failures; the operation that hit one leaves
/// every component unchanged. `Overflow` reports a payout that would not fit
/// the currency range; it is fatal to that operation, never wrapped.
#[derive(Clone, Copy, PartialEq, Eq, Structural, Debug)]
pub enum GameError {
    /// The stake offered at creation is below the minimum.
    InvalidAmount,
    /// The caller of `play_coinflip` is not the room's creator.
    Unauthorized,
    /// No room is stored under the given id.
    RoomNotFound,
    /// A room with the given id already exists, or an account is already open.
    AlreadyExists,
    /// The room was already resolved; the payout is never repeated.
    AlreadyFinished,
    /// The randomness for the room's seed has not been fulfilled yet.
    StillProcessing,
    /// The room is not in the status the operation needs.
    InvalidStatus,
    /// The player identities supplied for verification do not match the room.
    IdentityMismatch,
    /// The seed supplied does not match the seed stored on the room.
    SeedMismatch,
    /// No randomness request exists for the given seed.
    UninitializedAccount,
    /// The currency ledger refused the transfer.
    TransferFailed,
    /// The randomness oracle refused the request.
    OracleFailed,
    /// Crediting the payout would overflow the winner's balance.
    Overflow,
}

} // verus!
