use vstd::prelude::*;

verus! {

/// The kinds of failure that an operation of the wallet core can report.
#[derive(Clone, Copy, Debug, PartialEq, Eq, Structural)]
pub enum WalletError {
    /// Bad password or locked keychain.
    Credential,
    /// A key pair could not be derived.
    KeyDerivation,
    /// The relay configuration document could not be read.
    MalformedConfig,
    /// An address string is not of the form `public_key@domain:port`.
    MalformedAddress,
    /// Encryption, decryption or a signature failed.
    Crypto,
    /// No local transaction has the given identifier.
    UnknownTransaction,
    /// The transaction is not in a state that allows the requested transition.
    InvalidState,
    /// A slate arrived for a transaction that is already posted or cancelled.
    StaleSlate,
    /// A slate does not match the step that the transaction expects next.
    StateConflict,
    /// The spendable outputs cannot cover amount and fee.
    InsufficientFunds,
    /// Anything else, such as an identifier that does not parse.
    Generic,
}

/// The text that an error envelope carries for each kind of error.
pub open spec fn message_of(e: WalletError) -> Seq<char> {
    match e {
        WalletError::Credential => "wallet credentials were rejected"@,
        WalletError::KeyDerivation => "key derivation failed"@,
        WalletError::MalformedConfig => "relay configuration is malformed"@,
        WalletError::MalformedAddress => "address is malformed"@,
        WalletError::Crypto => "cryptographic operation failed"@,
        WalletError::UnknownTransaction => "transaction not found"@,
        WalletError::InvalidState => "transaction is in an invalid state for this operation"@,
        WalletError::StaleSlate => "slate refers to a finished transaction"@,
        WalletError::StateConflict => "slate does not match the expected step"@,
        WalletError::InsufficientFunds => "insufficient funds"@,
        WalletError::Generic => "invalid argument"@,
    }
}

impl WalletError {
    /// The text that an error envelope carries for this error.
    pub fn message(&self) -> (r: String)
        ensures
            r@ == message_of(*self),
    {
        let s = match self {
            WalletError::Credential => "wallet credentials were rejected",
            WalletError::KeyDerivation => "key derivation failed",
            WalletError::MalformedConfig => "relay configuration is malformed",
            WalletError::MalformedAddress => "address is malformed",
            WalletError::Crypto => "cryptographic operation failed",
            WalletError::UnknownTransaction => "transaction not found",
            WalletError::InvalidState => "transaction is in an invalid state for this operation",
            WalletError::StaleSlate => "slate refers to a finished transaction",
            WalletError::StateConflict => "slate does not match the expected step",
            WalletError::InsufficientFunds => "insufficient funds",
            WalletError::Generic => "invalid argument",
        };
        String::from_str(s)
    }
}

} // verus!
