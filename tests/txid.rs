use epic_wallet_core::error::WalletError;
use epic_wallet_core::txid::parse_tx_slate_id;

#[test]
fn parses_hyphenated_and_simple_forms() {
    let v = 0x550e8400_e29b_41d4_a716_446655440000u128;
    assert_eq!(parse_tx_slate_id("550e8400-e29b-41d4-a716-446655440000"), Ok(v));
    assert_eq!(parse_tx_slate_id("550e8400e29b41d4a716446655440000"), Ok(v));
}

#[test]
fn rejects_malformed_identifier() {
    assert_eq!(parse_tx_slate_id("550e8400-e29b-41d4-a716"), Err(WalletError::Generic));
    assert_eq!(parse_tx_slate_id("zz0e8400-e29b-41d4-a716-446655440000"), Err(WalletError::Generic));
}
