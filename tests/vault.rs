use bwtui::api::AuthData;
use bwtui::api_definition::{CipherEntry, CipherEntryData};
use bwtui::cipher::{CipherError, CipherString, CipherSuite};
use bwtui::vault::{decrypt, unlock, VaultEntry};

const EMAIL: &str = "test@example.com";
const PASSWORD: &str = "password123";
const ITERATIONS: u32 = 100000;

const WRAPPED: &str = "2.EBESExQVFhcYGRobHB0eHw==|NwVgZO7n4YbBIfq933aLtlKFjfzvgzzp/ZQoNsuRdOrlSOOoi8Rqgt3ccOMxTv863hgCOw+62Cpie49E5C5H6zfJV2KX31oNDOGscYaCF7k=|mrgUnhRDW49OK18eOiQ19jOERFE3dBJwNTVQ5Qvwlf8=";
const NAME: &str = "2.ICEiIyQlJicoKSorLC0uLw==|gRI/sG33fFegfLQNB01Q7A==|EDhItEIlfpe/BYYbWJHDJUntkBD2+n6+sHS6MbQP7NQ=";
const USER: &str = "2.MDEyMzQ1Njc4OTo7PD0+Pw==|+y9sLxdoWL4jvL3iac/ROw==|7WKp73OS+nfPriMzLtJgXVYnx/HO4eIkvfZVuMcd1SU=";
const PASS: &str = "2.QEFCQ0RFRkdISUpLTE1OTw==|0x4g1LY8bBISUOB9RK05Qw==|G2l6pAGuDZyulvK4/4WZJcuBLu1q2KHDTddmOlrnUAE=";
const UNI: &str = "2.UFFSU1RVVldYWVpbXF1eXw==|iYigY8LIcUgCzuEcZNr7CQ==|KILY1CP52VFhFXfMVfneEpRzVPIVBEZ4EjOluMg6XHg=";

fn parse(text: &str) -> CipherString {
    CipherString::from_str(text).unwrap()
}

fn record(name: CipherString, username: CipherString, password: CipherString, favorite: bool) -> CipherEntry {
    CipherEntry {
        favorite,
        edit: true,
        type_: 1,
        data: CipherEntryData {
            uri: None,
            uris: None,
            username,
            password,
            totp: None,
            name: name.clone(),
            notes: None,
            fields: None,
        },
        name,
        notes: None,
        fields: None,
    }
}

fn corrupted(text: &str) -> CipherString {
    let mut e = parse(text);
    e.mac[0] ^= 0x01;
    e
}

fn unlocked() -> CipherSuite {
    let mut suite = CipherSuite::from(EMAIL, PASSWORD, ITERATIONS);
    suite.set_decrypt_key(&parse(WRAPPED)).unwrap();
    suite
}

#[test]
fn record_projects_to_plaintext() {
    let suite = unlocked();
    let entry = VaultEntry::from_cipher_entry(&record(parse(NAME), parse(USER), parse(PASS), true), &suite).unwrap();
    assert_eq!(entry.name, "example.com");
    assert_eq!(entry.username, "alice");
    assert_eq!(entry.password, "hunter2");
    assert_eq!(entry.favorite, "\u{2605}");
    let other = VaultEntry::from_cipher_entry(&record(parse(UNI), parse(USER), parse(PASS), false), &suite).unwrap();
    assert_eq!(other.name, "caf\u{e9} \u{2605}");
    assert_eq!(other.favorite, "\u{2606}");
}

#[test]
fn record_with_corrupted_password_mac_dropped() {
    let suite = unlocked();
    // Name and username decrypt on their own.
    assert_eq!(parse(NAME).decrypt(&suite), Some("example.com".to_string()));
    assert_eq!(parse(USER).decrypt(&suite), Some("alice".to_string()));
    let entry = record(parse(NAME), parse(USER), corrupted(PASS), false);
    assert!(VaultEntry::from_cipher_entry(&entry, &suite).is_none());
    let all = decrypt(&vec![entry], &suite);
    assert!(all.is_empty());
}

#[test]
fn projection_drops_failures_and_keeps_order() {
    let suite = unlocked();
    let records = vec![
        record(parse(NAME), parse(USER), parse(PASS), false),
        record(corrupted(NAME), parse(USER), parse(PASS), false),
        record(parse(UNI), parse(USER), parse(PASS), true),
        record(parse(NAME), corrupted(USER), parse(PASS), true),
        record(parse(USER), parse(NAME), parse(PASS), false),
    ];
    let entries = decrypt(&records, &suite);
    assert_eq!(entries.len(), 3);
    assert_eq!(entries[0].name, "example.com");
    assert_eq!(entries[1].name, "caf\u{e9} \u{2605}");
    assert_eq!(entries[1].favorite, "\u{2605}");
    assert_eq!(entries[2].name, "alice");
    assert_eq!(entries[2].username, "example.com");
    assert_eq!(records.len() - entries.len(), 2);
}

#[test]
fn projection_of_empty_vault() {
    let suite = unlocked();
    assert!(decrypt(&Vec::new(), &suite).is_empty());
}

#[test]
fn projection_before_unwrap_is_empty() {
    let suite = CipherSuite::from(EMAIL, PASSWORD, ITERATIONS);
    let records = vec![record(parse(NAME), parse(USER), parse(PASS), false)];
    assert!(decrypt(&records, &suite).is_empty());
}

#[test]
fn unlock_with_right_password() {
    let records = vec![
        record(parse(NAME), parse(USER), parse(PASS), true),
        record(parse(NAME), parse(USER), corrupted(PASS), true),
    ];
    let (suite, entries) = unlock(EMAIL, PASSWORD, ITERATIONS, &parse(WRAPPED), &records).unwrap();
    assert!(suite.is_unlocked());
    assert_eq!(suite.master_key_hash, "WXzJ+oR3FoE8I2dJ01qiSrlY2kaC90REhBJRKhikU2A=");
    assert_eq!(entries.len(), 1);
    assert_eq!(entries[0].password, "hunter2");
}

#[test]
fn unlock_with_wrong_password() {
    let records = vec![record(parse(NAME), parse(USER), parse(PASS), true)];
    let r = unlock(EMAIL, "Password123", ITERATIONS, &parse(WRAPPED), &records);
    assert!(matches!(r, Err(CipherError::InvalidMac)));
}

#[test]
fn authorization_header() {
    let auth = AuthData {
        access_token: "abc.def".to_string(),
        expires_in: 3600,
        token_type: "Bearer".to_string(),
        kdf: 0,
        kdf_iterations: 100000,
        cipher: CipherSuite::default(),
    };
    assert_eq!(auth.authorization(), "Bearer abc.def");
}
