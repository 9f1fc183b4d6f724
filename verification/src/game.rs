//! The room state machine: create, join, play, resolve.
//!
//! Each operation is atomic and all-or-nothing: it either applies its whole
//! effect — the room mutation together with the matching ledger and oracle
//! changes — or fails with the error its contract names and leaves every
//! component exactly as it was.

use vstd::prelude::*;

use vstd::bytes::spec_u64_from_le_bytes;

use crate::errors::GameError;
use crate::ledger::Ledger;
use crate::misc::random_u64;
use crate::oracle::{all_zero, seed_eq, Oracle};
use crate::room::{
    AccountId, Coinflip, CreateCoinflip, JoinRoomCoinflip, PlayCoinflip, ResultCoinflip, Status,
    MIN_STAKE,
};
use crate::store::RoomStore;

verus! {

/// Opens a new room: escrows one stake from the creator and stores the room,
/// waiting for a second player.
///
/// A stake below [`MIN_STAKE`] is rejected before anything moves; a taken
/// room id or a failed debit likewise leaves both components untouched.
pub fn create_coinflip(
    store: &mut RoomStore,
    ledger: &mut Ledger,
    ctx: &CreateCoinflip,
    room_id: &String,
    amount: u64,
) -> (r: Result<(), GameError>)
    requires
        old(store).wf(),
        old(ledger).wf(),
        !ctx.user.is_unset(),
    ensures
        final(store).wf(),
        final(ledger).wf(),
        r is Err ==> *final(store) == *old(store) && *final(ledger) == *old(ledger),
        r == Err::<(), GameError>(GameError::InvalidAmount) <==> amount < MIN_STAKE,
        r == Err::<(), GameError>(GameError::AlreadyExists) <==> amount >= MIN_STAKE && old(
            store,
        )@.contains_key(room_id@),
        r == Err::<(), GameError>(GameError::TransferFailed) <==> amount >= MIN_STAKE && !old(
            store,
        )@.contains_key(room_id@) && !(old(ledger)@.contains_key(ctx.user) && old(
            ledger,
        )@[ctx.user] >= amount),
        r is Ok <==> amount >= MIN_STAKE && !old(store)@.contains_key(room_id@) && old(
            ledger,
        )@.contains_key(ctx.user) && old(ledger)@[ctx.user] >= amount,
        r is Ok ==> final(ledger)@ == old(ledger)@.insert(
            ctx.user,
            (old(ledger)@[ctx.user] - amount) as u64,
        ),
        r is Ok ==> final(store)@ == old(store)@.insert(room_id@, final(store)@[room_id@]),
        r is Ok ==> ({
            let room = final(store)@[room_id@];
            &&& room.user_1 == ctx.user
            &&& room.user_2.is_unset()
            &&& room.amount == amount
            &&& room.status == Status::Waiting
            &&& room.escrow == amount
            &&& room.winner.is_unset()
            &&& all_zero(room.force@)
        }),
{
    if amount < MIN_STAKE {
        return Err(GameError::InvalidAmount);
    }
    match store.get(room_id) {
        Some(_) => {
            return Err(GameError::AlreadyExists);
        },
        None => {},
    }
    match ledger.debit(ctx.user, amount) {
        Ok(_) => {},
        Err(_) => {
            return Err(GameError::TransferFailed);
        },
    }
    let room = Coinflip {
        user_1: ctx.user,
        user_2: AccountId::unset(),
        amount,
        force: [0u8; 32],
        winner: AccountId::unset(),
        status: Status::Waiting,
        escrow: amount,
    };
    match store.create_if_absent(room_id, room) {
        Ok(_) => Ok(()),
        Err(e) => {
            proof {
                assert(false);
            }
            Err(e)
        },
    }
}

/// A room accepts a second player while it waits for one: it is `Waiting`
/// and `user_2` is still unset.
pub open spec fn spec_joinable(room: Coinflip) -> bool {
    room.status == Status::Waiting && room.user_2.is_unset()
}

/// Joins an existing room: escrows one stake — the room's stored stake, not
/// a caller-supplied amount — from the joiner and records them as `user_2`.
///
/// The status stays `Waiting`; only `play_coinflip`, gated on the creator,
/// advances it. A room that is not waiting for a second player, or whose
/// second seat is already taken, is left unchanged, as is every balance.
pub fn join_coinflip(
    store: &mut RoomStore,
    ledger: &mut Ledger,
    ctx: &JoinRoomCoinflip,
    room_id: &String,
) -> (r: Result<(), GameError>)
    requires
        old(store).wf(),
        old(ledger).wf(),
        !ctx.user.is_unset(),
    ensures
        final(store).wf(),
        final(ledger).wf(),
        r is Err ==> *final(store) == *old(store) && *final(ledger) == *old(ledger),
        r == Err::<(), GameError>(GameError::RoomNotFound) <==> !old(store)@.contains_key(
            room_id@,
        ),
        r == Err::<(), GameError>(GameError::InvalidStatus) <==> old(store)@.contains_key(room_id@)
            && !spec_joinable(old(store)@[room_id@]),
        r == Err::<(), GameError>(GameError::TransferFailed) <==> ({
            let room = old(store)@[room_id@];
            &&& old(store)@.contains_key(room_id@)
            &&& spec_joinable(room)
            &&& !(old(ledger)@.contains_key(ctx.user) && old(ledger)@[ctx.user] >= room.amount
                && room.escrow + room.amount <= u64::MAX)
        }),
        r is Ok <==> ({
            let room = old(store)@[room_id@];
            &&& old(store)@.contains_key(room_id@)
            &&& spec_joinable(room)
            &&& old(ledger)@.contains_key(ctx.user)
            &&& old(ledger)@[ctx.user] >= room.amount
            &&& room.escrow + room.amount <= u64::MAX
        }),
        r is Ok ==> final(ledger)@ == old(ledger)@.insert(
            ctx.user,
            (old(ledger)@[ctx.user] - old(store)@[room_id@].amount) as u64,
        ),
        r is Ok ==> final(store)@ == old(store)@.insert(room_id@, final(store)@[room_id@]),
        r is Ok ==> ({
            let room0 = old(store)@[room_id@];
            let room = final(store)@[room_id@];
            &&& room.user_1 == room0.user_1
            &&& room.user_2 == ctx.user
            &&& room.amount == room0.amount
            &&& room.force == room0.force
            &&& room.winner == room0.winner
            &&& room.status == Status::Waiting
            &&& room.escrow == room0.escrow + room0.amount
            &&& room.escrow == 2 * room0.amount
        }),
{
    let room0 = match store.get(room_id) {
        Some(x) => x,
        None => {
            return Err(GameError::RoomNotFound);
        },
    };
    if !(room0.status == Status::Waiting && room0.user_2.id == 0) {
        return Err(GameError::InvalidStatus);
    }
    if room0.amount > u64::MAX - room0.escrow {
        return Err(GameError::TransferFailed);
    }
    match ledger.debit(ctx.user, room0.amount) {
        Ok(_) => {},
        Err(_) => {
            return Err(GameError::TransferFailed);
        },
    }
    let room = Coinflip { user_2: ctx.user, escrow: room0.escrow + room0.amount, ..room0 };
    match store.put(room_id, room) {
        Ok(_) => Ok(()),
        Err(e) => {
            proof {
                assert(false);
            }
            Err(e)
        },
    }
}

/// A room is ready for its flip: both seats taken, status still `Waiting`.
pub open spec fn spec_playable(room: Coinflip) -> bool {
    room.status == Status::Waiting && !room.user_2.is_unset()
}

/// Starts the flip: stores the randomness seed on the room, requests
/// fulfillment from the oracle, and advances the status to `Processing`.
///
/// Only the room's creator may trigger the flip, and only once: a room that
/// has left `Waiting` is refused, and the oracle refuses a duplicate seed.
/// When the request fails nothing is stored, so the room is never left in
/// `Processing` without an in-flight request.
pub fn play_coinflip(
    store: &mut RoomStore,
    oracle: &mut Oracle,
    ctx: &PlayCoinflip,
    room_id: &String,
    force: [u8; 32],
) -> (r: Result<(), GameError>)
    requires
        old(store).wf(),
        old(oracle).wf(),
    ensures
        final(store).wf(),
        final(oracle).wf(),
        r is Err ==> *final(store) == *old(store) && *final(oracle) == *old(oracle),
        r == Err::<(), GameError>(GameError::RoomNotFound) <==> !old(store)@.contains_key(
            room_id@,
        ),
        r == Err::<(), GameError>(GameError::Unauthorized) <==> old(store)@.contains_key(room_id@)
            && ctx.user != old(store)@[room_id@].user_1,
        r == Err::<(), GameError>(GameError::InvalidStatus) <==> old(store)@.contains_key(room_id@)
            && ctx.user == old(store)@[room_id@].user_1 && !spec_playable(old(store)@[room_id@]),
        r == Err::<(), GameError>(GameError::OracleFailed) <==> old(store)@.contains_key(room_id@)
            && ctx.user == old(store)@[room_id@].user_1 && spec_playable(old(store)@[room_id@])
            && old(oracle)@.contains_key(force@),
        r is Ok <==> old(store)@.contains_key(room_id@) && ctx.user == old(
            store,
        )@[room_id@].user_1 && spec_playable(old(store)@[room_id@]) && !old(
            oracle,
        )@.contains_key(force@),
        r is Ok ==> {
            &&& final(oracle)@ == old(oracle)@.insert(force@, final(oracle)@[force@])
            &&& final(oracle)@[force@].seed == force
            &&& all_zero(final(oracle)@[force@].randomness@)
        },
        r is Ok ==> final(store)@ == old(store)@.insert(room_id@, final(store)@[room_id@]),
        r is Ok ==> ({
            let room0 = old(store)@[room_id@];
            let room = final(store)@[room_id@];
            &&& room.user_1 == room0.user_1
            &&& room.user_2 == room0.user_2
            &&& room.amount == room0.amount
            &&& room.force == force
            &&& room.winner == room0.winner
            &&& room.status == Status::Processing
            &&& room.escrow == room0.escrow
        }),
{
    let room0 = match store.get(room_id) {
        Some(x) => x,
        None => {
            return Err(GameError::RoomNotFound);
        },
    };
    if !(ctx.user == room0.user_1) {
        return Err(GameError::Unauthorized);
    }
    if !(room0.status == Status::Waiting && room0.user_2.id != 0) {
        return Err(GameError::InvalidStatus);
    }
    match oracle.request(force) {
        Ok(_) => {},
        Err(_) => {
            return Err(GameError::OracleFailed);
        },
    }
    let room = Coinflip { force, status: Status::Processing, ..room0 };
    match store.put(room_id, room) {
        Ok(_) => Ok(()),
        Err(e) => {
            proof {
                assert(false);
            }
            Err(e)
        },
    }
}

/// The winner a fulfilled random value selects: its first 8 bytes, read as an
/// unsigned little-endian integer, pick `user_1` when even and `user_2` when
/// odd.
///
/// This is a pure function of the fulfilled value's parity and the two
/// players; nothing else enters winner selection.
pub open spec fn spec_winner(room: Coinflip, v: Seq<u8>) -> AccountId {
    if spec_u64_from_le_bytes(v.subrange(0, 8)) % 2 == 0 {
        room.user_1
    } else {
        room.user_2
    }
}

proof fn lemma_parity_low_byte(v: Seq<u8>)
    requires
        v.len() >= 8,
    ensures
        spec_u64_from_le_bytes(v.subrange(0, 8)) % 2 == v[0] % 2,
{
    let s = v.subrange(0, 8);
    let x = spec_u64_from_le_bytes(s);
    vstd::bytes::lemma_auto_spec_u64_to_from_le_bytes();
    assert(vstd::bytes::spec_u64_to_le_bytes(x) == s);
    vstd::bytes::spec_u64_to_le_bytes_to_open(x);
    assert(x & 0xff < 256) by (bit_vector);
    assert(s[0] == (x & 0xff) as u8);
    assert((x & 0xff) % 2 == x % 2) by (bit_vector);
    assert(v[0] == s[0]);
    assert(s[0] as int % 2 == (x & 0xff) as int % 2);
}

/// Winner selection is a pure, deterministic function of the fulfilled random
/// value's parity: an even low byte pays `user_1`, an odd one pays `user_2`.
pub proof fn lemma_winner_parity(room: Coinflip, v: Seq<u8>)
    requires
        v.len() >= 8,
    ensures
        spec_winner(room, v) == (if v[0] % 2 == 0 {
            room.user_1
        } else {
            room.user_2
        }),
{
    lemma_parity_low_byte(v);
}

/// Two fulfilled values of the same parity select the same winner: nothing
/// but the low bit of the value's first byte enters the selection.
pub proof fn lemma_winner_deterministic(room: Coinflip, v1: Seq<u8>, v2: Seq<u8>)
    requires
        v1.len() >= 8,
        v2.len() >= 8,
        v1[0] % 2 == v2[0] % 2,
    ensures
        spec_winner(room, v1) == spec_winner(room, v2),
{
    lemma_parity_low_byte(v1);
    lemma_parity_low_byte(v2);
}

/// Settles a `Processing` room against the oracle's fulfilled value: pays the
/// winner both stakes and closes the room.
///
/// While the oracle has not fulfilled the room's seed the call fails with
/// `StillProcessing` and has no effect, however often it is retried. A
/// finished room fails with `AlreadyFinished` and is never paid again. The
/// payout uses checked arithmetic throughout; an overflow aborts the
/// operation with every balance unchanged.
pub fn result_coinflip(
    store: &mut RoomStore,
    ledger: &mut Ledger,
    oracle: &Oracle,
    ctx: &ResultCoinflip,
    room_id: &String,
    force: &[u8; 32],
) -> (r: Result<(), GameError>)
    requires
        old(store).wf(),
        old(ledger).wf(),
    ensures
        final(store).wf(),
        final(ledger).wf(),
        r is Err ==> *final(store) == *old(store) && *final(ledger) == *old(ledger),
        r == Err::<(), GameError>(GameError::RoomNotFound) <==> !old(store)@.contains_key(
            room_id@,
        ),
        r == Err::<(), GameError>(GameError::AlreadyFinished) <==> old(store)@.contains_key(
            room_id@,
        ) && old(store)@[room_id@].status == Status::Finished,
        r == Err::<(), GameError>(GameError::InvalidStatus) <==> old(store)@.contains_key(room_id@)
            && old(store)@[room_id@].status == Status::Waiting,
        r == Err::<(), GameError>(GameError::IdentityMismatch) <==> ({
            let room = old(store)@[room_id@];
            &&& old(store)@.contains_key(room_id@)
            &&& room.status == Status::Processing
            &&& !(ctx.user_1 == room.user_1 && ctx.user_2 == room.user_2)
        }),
        r == Err::<(), GameError>(GameError::SeedMismatch) <==> ({
            let room = old(store)@[room_id@];
            &&& old(store)@.contains_key(room_id@)
            &&& room.status == Status::Processing
            &&& ctx.user_1 == room.user_1 && ctx.user_2 == room.user_2
            &&& force@ != room.force@
        }),
        r == Err::<(), GameError>(GameError::StillProcessing) <==> ({
            let room = old(store)@[room_id@];
            &&& old(store)@.contains_key(room_id@)
            &&& room.status == Status::Processing
            &&& ctx.user_1 == room.user_1 && ctx.user_2 == room.user_2
            &&& force@ == room.force@
            &&& !(oracle@.contains_key(force@) && oracle@[force@].spec_fulfilled() is Some)
        }),
        r == Err::<(), GameError>(GameError::TransferFailed) <==> ({
            let room = old(store)@[room_id@];
            let winner = spec_winner(room, oracle@[force@].randomness@);
            &&& old(store)@.contains_key(room_id@)
            &&& room.status == Status::Processing
            &&& ctx.user_1 == room.user_1 && ctx.user_2 == room.user_2
            &&& force@ == room.force@
            &&& oracle@.contains_key(force@) && oracle@[force@].spec_fulfilled() is Some
            &&& !old(ledger)@.contains_key(winner)
        }),
        r == Err::<(), GameError>(GameError::Overflow) <==> ({
            let room = old(store)@[room_id@];
            let winner = spec_winner(room, oracle@[force@].randomness@);
            &&& old(store)@.contains_key(room_id@)
            &&& room.status == Status::Processing
            &&& ctx.user_1 == room.user_1 && ctx.user_2 == room.user_2
            &&& force@ == room.force@
            &&& oracle@.contains_key(force@) && oracle@[force@].spec_fulfilled() is Some
            &&& old(ledger)@.contains_key(winner)
            &&& old(ledger)@[winner] + 2 * room.amount > u64::MAX
        }),
        r is Ok <==> ({
            let room = old(store)@[room_id@];
            let winner = spec_winner(room, oracle@[force@].randomness@);
            &&& old(store)@.contains_key(room_id@)
            &&& room.status == Status::Processing
            &&& ctx.user_1 == room.user_1 && ctx.user_2 == room.user_2
            &&& force@ == room.force@
            &&& oracle@.contains_key(force@) && oracle@[force@].spec_fulfilled() is Some
            &&& old(ledger)@.contains_key(winner)
            &&& old(ledger)@[winner] + 2 * room.amount <= u64::MAX
        }),
        r is Ok ==> ({
            let room = old(store)@[room_id@];
            let winner = spec_winner(room, oracle@[force@].randomness@);
            final(ledger)@ == old(ledger)@.insert(
                winner,
                (old(ledger)@[winner] + 2 * room.amount) as u64,
            )
        }),
        r is Ok ==> final(store)@ == old(store)@.insert(room_id@, final(store)@[room_id@]),
        r is Ok ==> ({
            let room0 = old(store)@[room_id@];
            let room = final(store)@[room_id@];
            &&& room.user_1 == room0.user_1
            &&& room.user_2 == room0.user_2
            &&& room.amount == room0.amount
            &&& room.force == room0.force
            &&& room.winner == spec_winner(room0, oracle@[force@].randomness@)
            &&& room.status == Status::Finished
            &&& room.escrow == 0
        }),
{
    let room0 = match store.get(room_id) {
        Some(x) => x,
        None => {
            return Err(GameError::RoomNotFound);
        },
    };
    if room0.status == Status::Finished {
        return Err(GameError::AlreadyFinished);
    }
    if room0.status == Status::Waiting {
        return Err(GameError::InvalidStatus);
    }
    if !(ctx.user_1 == room0.user_1 && ctx.user_2 == room0.user_2) {
        return Err(GameError::IdentityMismatch);
    }
    if !seed_eq(force, &room0.force) {
        return Err(GameError::SeedMismatch);
    }
    let value = match oracle.poll(force) {
        Some(v) => v,
        None => {
            return Err(GameError::StillProcessing);
        },
    };
    let rand = random_u64(&value);
    let winner_id = if rand % 2 == 0 {
        room0.user_1
    } else {
        room0.user_2
    };
    let payout = match room0.amount.checked_mul(2) {
        Some(p) => p,
        None => {
            proof {
                assert(false);
            }
            return Err(GameError::Overflow);
        },
    };
    let bal = match ledger.balance_of(winner_id) {
        Some(b) => b,
        None => {
            return Err(GameError::TransferFailed);
        },
    };
    if bal > u64::MAX - payout {
        return Err(GameError::Overflow);
    }
    match ledger.credit(winner_id, payout) {
        Ok(_) => {},
        Err(_) => {
            proof {
                assert(false);
            }
            return Err(GameError::TransferFailed);
        },
    }
    let room = Coinflip { winner: winner_id, status: Status::Finished, escrow: 0, ..room0 };
    match store.put(room_id, room) {
        Ok(_) => Ok(()),
        Err(e) => {
            proof {
                assert(false);
            }
            Err(e)
        },
    }
}

} // verus!
