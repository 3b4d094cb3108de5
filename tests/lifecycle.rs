use epic_wallet_core::error::WalletError;
use epic_wallet_core::lifecycle::{ReceivedSlate, TxStatus, TxStore};

const ID: u128 = 0x550e8400_e29b_41d4_a716_446655440000;
const ID_TEXT: &str = "550e8400-e29b-41d4-a716-446655440000";

fn store_with_created() -> TxStore {
    let mut store = TxStore::new();
    let r = store.create(ID, 1000, 10, false, 5000, String::from("sender-slate"));
    assert_eq!(r, Ok(TxStatus::Created));
    store
}

fn response() -> ReceivedSlate {
    ReceivedSlate { tx_id: ID, participants: 2, slate: String::from("signed-slate") }
}

#[test]
fn end_to_end_create_send_receive_post() {
    let mut store = store_with_created();
    assert_eq!(store.status(ID), Some(TxStatus::Created));
    assert_eq!(store.mark_sent(ID), Ok(TxStatus::Sent));
    assert_eq!(store.apply_received(response()), Ok(TxStatus::Received));
    assert_eq!(store.status(ID), Some(TxStatus::Received));
    assert_eq!(store.post_tx(ID_TEXT), Ok(TxStatus::Posted));
    assert_eq!(store.status(ID), Some(TxStatus::Posted));
    assert_eq!(store.cancel_tx(ID_TEXT), Err(WalletError::InvalidState));
    assert_eq!(store.status(ID), Some(TxStatus::Posted));
    let listed = store.list(true);
    assert_eq!(listed.len(), 1);
    assert_eq!(listed[0].slate, "signed-slate");
}

#[test]
fn create_rejects_when_funds_do_not_cover_amount_and_fee() {
    let mut store = TxStore::new();
    assert_eq!(
        store.create(ID, 1000, 10, false, 1009, String::from("s")),
        Err(WalletError::InsufficientFunds)
    );
    assert_eq!(store.status(ID), None);
    assert_eq!(store.create(ID, 1000, 10, false, 1010, String::from("s")), Ok(TxStatus::Created));
}

#[test]
fn create_handles_largest_amounts() {
    let mut store = TxStore::new();
    assert_eq!(
        store.create(ID, u64::MAX, 1, false, u64::MAX, String::new()),
        Err(WalletError::InsufficientFunds)
    );
    assert_eq!(store.create(ID, u64::MAX, 0, false, u64::MAX, String::new()), Ok(TxStatus::Created));
}

#[test]
fn create_rejects_duplicate_identifier() {
    let mut store = store_with_created();
    assert_eq!(
        store.create(ID, 1, 1, false, 5000, String::from("again")),
        Err(WalletError::StateConflict)
    );
}

#[test]
fn applying_same_slate_twice_is_idempotent() {
    let mut store = store_with_created();
    assert_eq!(store.apply_received(response()), Ok(TxStatus::Received));
    let first = store.list(true);
    assert_eq!(store.apply_received(response()), Ok(TxStatus::Received));
    let second = store.list(true);
    assert_eq!(first.len(), second.len());
    assert_eq!(first[0].status, second[0].status);
    assert_eq!(first[0].slate, second[0].slate);
}

#[test]
fn apply_errors() {
    let mut store = store_with_created();
    let unknown = ReceivedSlate { tx_id: ID + 1, participants: 2, slate: String::new() };
    assert_eq!(store.apply_received(unknown), Err(WalletError::UnknownTransaction));
    let wrong_round = ReceivedSlate { tx_id: ID, participants: 1, slate: String::new() };
    assert_eq!(store.apply_received(wrong_round), Err(WalletError::StateConflict));
    assert_eq!(store.cancel(ID), Ok(TxStatus::Cancelled));
    assert_eq!(store.apply_received(response()), Err(WalletError::StaleSlate));
}

#[test]
fn self_send_expects_one_participant() {
    let mut store = TxStore::new();
    assert_eq!(store.create(ID, 5, 1, true, 10, String::new()), Ok(TxStatus::Created));
    let one = ReceivedSlate { tx_id: ID, participants: 1, slate: String::from("self") };
    assert_eq!(store.apply_received(one), Ok(TxStatus::Received));
}

#[test]
fn post_requires_received() {
    let mut store = store_with_created();
    assert_eq!(store.post(ID), Err(WalletError::InvalidState));
    store.mark_sent(ID).unwrap();
    assert_eq!(store.post(ID), Err(WalletError::InvalidState));
    assert_eq!(store.mark_sent(ID), Err(WalletError::InvalidState));
    store.apply_received(response()).unwrap();
    assert_eq!(store.post(ID), Ok(TxStatus::Posted));
    assert_eq!(store.post(ID), Err(WalletError::InvalidState));
}

#[test]
fn cancel_from_each_open_state_and_only_once() {
    for steps in 0..3 {
        let mut store = store_with_created();
        if steps >= 1 {
            store.mark_sent(ID).unwrap();
        }
        if steps >= 2 {
            store.apply_received(response()).unwrap();
        }
        assert_eq!(store.cancel(ID), Ok(TxStatus::Cancelled));
        assert_eq!(store.cancel(ID), Err(WalletError::InvalidState));
        assert_eq!(store.post(ID), Err(WalletError::InvalidState));
        assert_eq!(store.mark_sent(ID), Err(WalletError::InvalidState));
    }
}

#[test]
fn unknown_identifier_is_reported() {
    let mut store = store_with_created();
    let other = "6ba7b810-9dad-11d1-80b4-00c04fd430c8";
    assert_eq!(store.post_tx(other), Err(WalletError::UnknownTransaction));
    assert_eq!(store.cancel_tx(other), Err(WalletError::UnknownTransaction));
}

#[test]
fn malformed_identifier_is_generic_error() {
    let mut store = store_with_created();
    assert_eq!(store.post_tx("not-a-uuid"), Err(WalletError::Generic));
    assert_eq!(store.cancel_tx(""), Err(WalletError::Generic));
    assert_eq!(store.status(ID), Some(TxStatus::Created));
}

#[test]
fn list_keeps_creation_order_and_filters_cancelled() {
    let mut store = TxStore::new();
    store.create(3, 1, 0, false, 10, String::from("c")).unwrap();
    store.create(1, 1, 0, false, 10, String::from("a")).unwrap();
    store.create(2, 1, 0, false, 10, String::from("b")).unwrap();
    store.cancel(1).unwrap();
    let all: Vec<u128> = store.list(true).iter().map(|t| t.id).collect();
    assert_eq!(all, vec![3, 1, 2]);
    let open: Vec<u128> = store.list(false).iter().map(|t| t.id).collect();
    assert_eq!(open, vec![3, 2]);
    let again: Vec<u128> = store.list(false).iter().map(|t| t.id).collect();
    assert_eq!(again, open);
}
