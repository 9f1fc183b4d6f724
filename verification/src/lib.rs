//! A two-player, stake-matched coin-flip escrow settled by an externally
//! supplied verifiable random value.
//!
//! The heart of the crate is the room state machine: `create_coinflip` opens a
//! room and escrows the creator's stake, `join_coinflip` matches the stake and
//! adds the second player, `play_coinflip` requests a random seed and moves the
//! room to `Processing`, and `result_coinflip` consumes the fulfilled value
//! exactly once, pays the winner double the stake, and closes the room.
//!
//! The collaborators the state machine relies on — a keyed room store, a
//! currency ledger, and a poll-based randomness oracle — are modelled here as
//! verified in-memory components with exact contracts, so every transition,
//! balance movement, and error outcome of the four operations is proved.

pub mod errors;
pub mod game;
pub mod ledger;
pub mod misc;
pub mod oracle;
pub mod room;
pub mod store;
