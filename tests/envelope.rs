use epic_wallet_core::envelope::{json_array, result_response, ResultData};
use epic_wallet_core::error::WalletError;

#[test]
fn string_success() {
    let r = result_response(ResultData::AsStringResult(Ok(String::from("slate"))));
    assert_eq!(r, r#"{"error":0,"message":"success","result":"slate"}"#);
}

#[test]
fn string_failure() {
    let r = result_response(ResultData::AsStringResult(Err(String::from("boom"))));
    assert_eq!(r, r#"{"error":1,"message":"boom","result":0}"#);
}

#[test]
fn payload_is_escaped() {
    let r = result_response(ResultData::AsStringResult(Ok(String::from("{\"a\":1}"))));
    assert_eq!(r, r#"{"error":0,"message":"success","result":"{\"a\":1}"}"#);
}

#[test]
fn vector_success_and_failure() {
    let r = result_response(ResultData::AsVectorResult(Ok(vec![String::from("a"), String::from("b\n")])));
    assert_eq!(r, r#"{"error":0,"message":"success","result":["a","b\n"]}"#);
    let e = result_response(ResultData::AsVectorResult(Err(String::from("bad"))));
    assert_eq!(e, r#"{"error":1,"message":"bad","result":0}"#);
}

#[test]
fn empty_vector() {
    assert_eq!(json_array(&Vec::new()), "[]");
    let r = result_response(ResultData::AsVectorResult(Ok(Vec::new())));
    assert_eq!(r, r#"{"error":0,"message":"success","result":[]}"#);
}

#[test]
fn tuple_flag() {
    let ok = result_response(ResultData::AsStringTuple((String::from("addr"), true)));
    assert_eq!(ok, r#"{"error":0,"message":"success","result":"addr"}"#);
    let bad = result_response(ResultData::AsStringTuple((String::from("no \"wallet\""), false)));
    assert_eq!(bad, r#"{"error":1,"message":"no \"wallet\"","result":0}"#);
}

#[test]
fn error_kind_in_envelope() {
    let msg = WalletError::InvalidState.message();
    assert_eq!(msg, "transaction is in an invalid state for this operation");
    let r = result_response(ResultData::AsStringResult(Err(WalletError::UnknownTransaction.message())));
    assert_eq!(r, r#"{"error":1,"message":"transaction not found","result":0}"#);
}
