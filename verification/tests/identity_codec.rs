use marmot_agent_core::codec::{is_whitespace, trim};
use marmot_agent_core::context::{parse_group_id_hex, AgentContext};
use marmot_agent_core::storage::AgentStorage;
use marmot_agent_core::identity::{parse_account, Identity};
use marmot_agent_core::{Config, Error};

const ONE_HEX: &str = "0000000000000000000000000000000000000000000000000000000000000001";
const G_X_HEX: &str = "79be667ef9dcbbac55a06295ce870b07029bfcdb2dce28d959f2815b16f81798";
const G_NPUB: &str = "npub10xlxvlhemja6c4dqv22uapctqupfhlxm9h8z3k2e72q4k9hcz7vqpkge6d";
const ONE_NSEC: &str = "nsec1qqqqqqqqqqqqqqqqqqqqqqqqqqqqqqqqqqqqqqqqqqqqqqqqqqqsmhltgl";
// secp256k1 group order n: not a valid secret key.
const ORDER_HEX: &str = "fffffffffffffffffffffffffffffffebaaedce6af48a03bbfd25e8cd0364141";

#[test]
fn default_relays_are_the_white_noise_ones() {
    assert_eq!(
        Config::default_relays(),
        vec![
            "wss://nos.lol".to_string(),
            "wss://relay.primal.net".to_string(),
            "wss://relay.damus.io".to_string()
        ]
    );
}

#[test]
fn hex_encode_is_lower_case() {
    let mut key = [0u8; 32];
    key[0] = 0xbe;
    key[1] = 0xef;
    key[3] = 0x0a;
    let text = AgentStorage::db_key_file_contents(&key);
    assert!(text.starts_with("beef000a"));
    assert_eq!(text, hex::encode(key));
}

#[test]
fn hex_decode_accepts_both_cases() {
    let mixed = format!("BEef000A{}", "0".repeat(56));
    let id = parse_group_id_hex(&mixed).unwrap();
    assert_eq!(&id[..4], &[0xbe, 0xef, 0x00, 0x0a]);
    assert!(parse_group_id_hex("abc").is_err());
    assert!(parse_group_id_hex("zz").is_err());
    assert!(parse_group_id_hex("ää").is_err());
    assert!(AgentStorage::parse_db_key(&"ä".repeat(64)).is_err());
}

#[test]
fn trim_removes_unicode_whitespace() {
    assert_eq!(trim("  abc \n"), "abc");
    assert_eq!(trim("\u{3000}a b\u{a0}"), "a b");
    assert_eq!(trim(" \t\r\n"), "");
    assert_eq!(trim(""), "");
    assert!(is_whitespace('\u{2028}'));
    assert!(!is_whitespace('x'));
}

#[test]
fn identity_from_hex_secret() {
    let id = Identity::from_secret_hex(ONE_HEX).unwrap();
    assert_eq!(id.public_key_hex(), G_X_HEX);
    assert_eq!(id.npub(), G_NPUB);
    assert_eq!(id.nsec(), ONE_NSEC);
    assert!(id.name().is_none());
}

#[test]
fn identity_from_nsec() {
    let id = Identity::from_secret_hex(ONE_NSEC).unwrap();
    assert_eq!(id.public_key_hex(), G_X_HEX);
}

#[test]
fn identity_rejects_bad_secrets() {
    for bad in ["", "zz", ORDER_HEX, "00000000000000000000000000000000000000000000000000000000000000000"] {
        match Identity::from_secret_hex(bad) {
            Err(Error::Identity(m)) => assert_eq!(m, "invalid secret key: Invalid secret key"),
            other => panic!("unexpected: {:?}", other.map(|i| i.public_key_hex())),
        }
    }
    let zero = "0".repeat(64);
    assert!(Identity::from_secret_hex(&zero).is_err());
}

#[test]
fn identity_file_roundtrip() {
    let id = Identity::generate_named("alice".to_string());
    assert_eq!(id.name().as_deref(), Some("alice"));
    let contents = id.secret_file_contents();
    assert_eq!(contents.len(), 64);
    let loaded = Identity::from_secret_file(&format!("  {}\n", contents)).unwrap();
    assert_eq!(loaded.public_key_hex(), id.public_key_hex());
    assert_eq!(loaded.nsec(), id.nsec());
    assert!(loaded.name().is_none());
}

#[test]
fn identity_secret_file_is_hex_of_secret() {
    let id = Identity::from_secret_hex(ONE_HEX).unwrap();
    assert_eq!(id.secret_file_contents(), ONE_HEX);
}

#[test]
fn generated_identities_differ() {
    let a = Identity::generate();
    let b = Identity::generate();
    assert_ne!(a.public_key(), b.public_key());
    assert!(a.name().is_none());
}

#[test]
fn identity_set_name_keeps_key() {
    let mut id = Identity::from_secret_hex(ONE_HEX).unwrap();
    id.set_name(Some("bob".to_string()));
    assert_eq!(id.name().as_deref(), Some("bob"));
    assert_eq!(id.public_key_hex(), G_X_HEX);
    let c = id.clone();
    assert_eq!(c.name().as_deref(), Some("bob"));
    assert_eq!(c.public_key_hex(), G_X_HEX);
}

#[test]
fn npub_of_raw_public_key() {
    let mut pk = [0u8; 32];
    pk.copy_from_slice(&hex::decode(G_X_HEX).unwrap());
    assert_eq!(AgentContext::member_npub(&pk), G_NPUB);
}

#[test]
fn keys_match_identity() {
    let id = Identity::from_secret_hex(ONE_HEX).unwrap();
    assert_eq!(id.keys().public_key().to_hex(), G_X_HEX);
}

#[test]
fn accounts_parse_from_npub_or_hex() {
    let from_npub = parse_account(G_NPUB).unwrap();
    assert_eq!(hex::encode(from_npub), G_X_HEX);
    assert_eq!(parse_account(G_X_HEX).unwrap(), from_npub);
    match parse_account("npub1nope") {
        Err(Error::Identity(m)) => assert!(m.starts_with("Invalid npub 'npub1nope': ")),
        other => panic!("unexpected {:?}", other.map(|k| k.to_vec())),
    }
}
