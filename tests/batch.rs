use epic_wallet_core::batch::split_batch;
use epic_wallet_core::error::WalletError;

#[test]
fn one_corrupted_entry_of_three() {
    let batch = vec![
        Ok(String::from("slate-a")),
        Err(WalletError::Crypto),
        Ok(String::from("slate-c")),
    ];
    let r = split_batch(&batch);
    assert_eq!(r.plaintexts, vec![String::from("slate-a"), String::from("slate-c")]);
    assert_eq!(r.failed, vec![1]);
}

#[test]
fn empty_batch() {
    let r = split_batch(&Vec::new());
    assert!(r.plaintexts.is_empty());
    assert!(r.failed.is_empty());
}
