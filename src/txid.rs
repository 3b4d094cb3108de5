use vstd::prelude::*;

use crate::error::WalletError;

verus! {

/// The 128-bit value of a textual UUID, or `None` where the text is no UUID.
pub uninterp spec fn uuid_of(s: Seq<char>) -> Option<u128>;

/// Relies on `uuid::Uuid::parse_str`, which accepts the textual UUID forms
/// (plain, hyphenated, braced, urn) and depends on its input alone;
/// `Uuid::as_u128` reads the sixteen bytes big-endian.
#[verifier::external_body]
fn parse_uuid(s: &str) -> (r: Option<u128>)
    ensures
        r == uuid_of(s@),
{
    match uuid::Uuid::parse_str(s) {
        Ok(u) => Some(u.as_u128()),
        Err(_) => None,
    }
}

/// The transaction identifier that `tx_slate_id` spells; an identifier that
/// does not parse is a generic error.
pub fn parse_tx_slate_id(tx_slate_id: &str) -> (r: Result<u128, WalletError>)
    ensures
        r == (match uuid_of(tx_slate_id@) {
            Some(v) => Ok(v),
            None => Err(WalletError::Generic),
        }),
{
    match parse_uuid(tx_slate_id) {
        Some(v) => Ok(v),
        None => Err(WalletError::Generic),
    }
}

} // verus!
