pub mod address;
pub mod batch;
pub mod envelope;
pub mod error;
pub mod lifecycle;
pub mod txid;
