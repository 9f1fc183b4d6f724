use solana_coinflip_game::errors::GameError;
use solana_coinflip_game::room::{AccountId, Coinflip, Status, MIN_STAKE};
use solana_coinflip_game::store::RoomStore;

fn waiting_room(user: u64) -> Coinflip {
    Coinflip {
        user_1: AccountId::new(user),
        user_2: AccountId::new(0),
        amount: MIN_STAKE,
        force: [0u8; 32],
        winner: AccountId::new(0),
        status: Status::Waiting,
        escrow: MIN_STAKE,
    }
}

#[test]
fn store_get_missing_is_none() {
    let store = RoomStore::new();
    assert!(store.get(&"r1".to_owned()).is_none());
}

#[test]
fn store_create_then_get() {
    let mut store = RoomStore::new();
    let id = "r1".to_owned();
    store.create_if_absent(&id, waiting_room(3)).unwrap();
    let room = store.get(&id).unwrap();
    assert_eq!(room.user_1.id, 3);
    assert!(store.get(&"r2".to_owned()).is_none());
}

#[test]
fn store_create_duplicate_rejected() {
    let mut store = RoomStore::new();
    let id = "r1".to_owned();
    store.create_if_absent(&id, waiting_room(3)).unwrap();
    let r = store.create_if_absent(&id, waiting_room(4));
    assert_eq!(r, Err(GameError::AlreadyExists));
    assert_eq!(store.get(&id).unwrap().user_1.id, 3);
}

#[test]
fn store_put_replaces_only_existing() {
    let mut store = RoomStore::new();
    let id = "r1".to_owned();
    assert_eq!(store.put(&id, waiting_room(3)), Err(GameError::RoomNotFound));
    store.create_if_absent(&id, waiting_room(3)).unwrap();
    store.put(&id, waiting_room(5)).unwrap();
    assert_eq!(store.get(&id).unwrap().user_1.id, 5);
}

#[test]
fn store_keys_are_distinct() {
    let mut store = RoomStore::new();
    let a = "alpha".to_owned();
    let b = "beta".to_owned();
    store.create_if_absent(&a, waiting_room(1)).unwrap();
    store.create_if_absent(&b, waiting_room(2)).unwrap();
    assert_eq!(store.get(&a).unwrap().user_1.id, 1);
    assert_eq!(store.get(&b).unwrap().user_1.id, 2);
}
