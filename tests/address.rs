use epic_wallet_core::address::{decode_address, encode_address, EpicBoxAddress};
use epic_wallet_core::error::WalletError;

const PK: &str = "esYV9cBTcfGoE4nsbFBfsfqaKXYz7A9Tv7Fo2E3UGbqJJaodoaRx";

#[test]
fn encodes_key_domain_port() {
    assert_eq!(encode_address(PK, "epicbox.epic.tech", 443), format!("{}@epicbox.epic.tech:443", PK));
    assert_eq!(encode_address("k", "d", 0), "k@d:0");
    assert_eq!(encode_address("k", "d", 65535), "k@d:65535");
}

#[test]
fn round_trip() {
    for (domain, port) in [("epicbox.epic.tech", 443u16), ("localhost", 0), ("relay", 65535), ("a.b", 3420)] {
        let s = encode_address(PK, domain, port);
        let a = decode_address(&s).unwrap();
        assert_eq!(a.public_key, PK);
        assert_eq!(a.domain, domain);
        assert_eq!(a.port, port);
        assert_eq!(a.to_address_string(), s);
    }
}

#[test]
fn struct_to_string() {
    let a = EpicBoxAddress { public_key: String::from("key"), domain: String::from("host"), port: 80 };
    assert_eq!(a.to_address_string(), "key@host:80");
}

#[test]
fn rejects_malformed_addresses() {
    for s in [
        "", "key", "@host:80", "key@:80", "key@host", "key@host:", "key@host:65536",
        "key@host:123456", "key@host:8a", "key:host@80", "ke@y@host:80", "key@ho:st:80",
        "key@host:-1",
    ] {
        assert_eq!(decode_address(s).map(|a| a.port), Err(WalletError::MalformedAddress), "{}", s);
    }
}

#[test]
fn accepts_leading_zeros_in_port() {
    let a = decode_address("key@host:00080").unwrap();
    assert_eq!(a.port, 80);
}
