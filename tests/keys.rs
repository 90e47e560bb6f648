use bwtui::cipher::{CipherError, CipherString, CipherSuite};
use hmac::{Hmac, Mac, NewMac};
use sha2::Sha256;

const EMAIL: &str = "test@example.com";
const PASSWORD: &str = "password123";
const ITERATIONS: u32 = 100000;
const MASTER_KEY_HASH: &str = "WXzJ+oR3FoE8I2dJ01qiSrlY2kaC90REhBJRKhikU2A=";

const WRAPPED: &str = "2.EBESExQVFhcYGRobHB0eHw==|NwVgZO7n4YbBIfq933aLtlKFjfzvgzzp/ZQoNsuRdOrlSOOoi8Rqgt3ccOMxTv863hgCOw+62Cpie49E5C5H6zfJV2KX31oNDOGscYaCF7k=|mrgUnhRDW49OK18eOiQ19jOERFE3dBJwNTVQ5Qvwlf8=";
const SHORT_KEY: &str = "2.EBESExQVFhcYGRobHB0eHw==|NwVgZO7n4YbBIfq933aLtlKFjfzvgzzp/ZQoNsuRdOrl3cKLamKLFttJ7iFtk3za|94rXcyIFR6T56Hs5nAKkjLnh4A5kXIiRQH5zpeDeagA=";
const NAME: &str = "2.ICEiIyQlJicoKSorLC0uLw==|gRI/sG33fFegfLQNB01Q7A==|EDhItEIlfpe/BYYbWJHDJUntkBD2+n6+sHS6MbQP7NQ=";
const PASS: &str = "2.QEFCQ0RFRkdISUpLTE1OTw==|0x4g1LY8bBISUOB9RK05Qw==|G2l6pAGuDZyulvK4/4WZJcuBLu1q2KHDTddmOlrnUAE=";
const UNI: &str = "2.UFFSU1RVVldYWVpbXF1eXw==|iYigY8LIcUgCzuEcZNr7CQ==|KILY1CP52VFhFXfMVfneEpRzVPIVBEZ4EjOluMg6XHg=";
const BAD_UTF8: &str = "2.YGFiY2RlZmdoaWprbG1ubw==|NX4/HIFX8AFY0mVVqEq5wg==|YT+x37RGFBEzDPEGfYTkpjtI1P6OKbyOkECBskymTrE=";

fn data_key() -> Vec<u8> {
    (0..64u32).map(|i| ((7 * i + 3) % 256) as u8).collect()
}

fn parse(text: &str) -> CipherString {
    CipherString::from_str(text).unwrap()
}

fn hmac_of(key: &[u8], message: &[u8]) -> Vec<u8> {
    let mut mac = Hmac::<Sha256>::new_from_slice(key).unwrap();
    mac.update(message);
    mac.finalize().into_bytes().to_vec()
}

fn unlocked() -> CipherSuite {
    let mut suite = CipherSuite::from(EMAIL, PASSWORD, ITERATIONS);
    suite.set_decrypt_key(&parse(WRAPPED)).unwrap();
    suite
}

#[test]
fn derive_credentials_golden_hash() {
    let suite = CipherSuite::from(EMAIL, PASSWORD, ITERATIONS);
    assert_eq!(suite.master_key_hash, MASTER_KEY_HASH);
    assert!(!suite.is_unlocked());
}

#[test]
fn derive_credentials_deterministic() {
    let mut a = CipherSuite::from(EMAIL, PASSWORD, ITERATIONS);
    let mut b = CipherSuite::from(EMAIL, PASSWORD, ITERATIONS);
    assert_eq!(a.master_key_hash, b.master_key_hash);
    let wrapped = parse(WRAPPED);
    a.set_decrypt_key(&wrapped).unwrap();
    b.set_decrypt_key(&wrapped).unwrap();
    assert_eq!(parse(NAME).decrypt(&a), parse(NAME).decrypt(&b));
}

#[test]
fn derive_credentials_empty_password() {
    let a = CipherSuite::from(EMAIL, "", 1);
    let b = CipherSuite::from(EMAIL, "", 1);
    assert_eq!(a.master_key_hash, b.master_key_hash);
    assert_eq!(a.master_key_hash.len(), 44);
    assert_ne!(a.master_key_hash, CipherSuite::from(EMAIL, "x", 1).master_key_hash);
}

#[test]
fn unwrap_golden_data_key() {
    let suite = unlocked();
    assert!(suite.is_unlocked());
    let key = data_key();
    // The unwrapped keys authenticate and decrypt a field encrypted under the pinned data key.
    assert!(parse(NAME).is_valid_mac(&key[32..64]));
    assert_eq!(parse(NAME).decrypt_raw(&key[0..32], &key[32..64]).unwrap(), b"example.com".to_vec());
    assert_eq!(parse(NAME).decrypt(&suite), Some("example.com".to_string()));
    assert_eq!(parse(PASS).decrypt(&suite), Some("hunter2".to_string()));
}

#[test]
fn unwrap_wrong_password_is_invalid_mac() {
    let mut suite = CipherSuite::from(EMAIL, "password124", ITERATIONS);
    let r = suite.set_decrypt_key(&parse(WRAPPED));
    assert!(matches!(r, Err(CipherError::InvalidMac)));
    assert!(!suite.is_unlocked());
    assert_eq!(parse(NAME).decrypt(&suite), None);
}

#[test]
fn unwrap_twice_rejected() {
    let mut suite = unlocked();
    let r = suite.set_decrypt_key(&parse(WRAPPED));
    assert!(matches!(r, Err(CipherError::DecryptionKeyError(_))));
    // The data keys are still the ones unwrapped first.
    assert_eq!(parse(NAME).decrypt(&suite), Some("example.com".to_string()));
}

#[test]
fn unwrap_short_key_material_rejected() {
    let mut suite = CipherSuite::from(EMAIL, PASSWORD, ITERATIONS);
    let r = suite.set_decrypt_key(&parse(SHORT_KEY));
    assert!(matches!(r, Err(CipherError::InvalidKeyLength)));
    assert!(!suite.is_unlocked());
    // The ring stays stretched and can still take the right key.
    suite.set_decrypt_key(&parse(WRAPPED)).unwrap();
    assert_eq!(parse(PASS).decrypt(&suite), Some("hunter2".to_string()));
}

#[test]
fn decrypt_before_unwrap_is_none() {
    let suite = CipherSuite::from(EMAIL, PASSWORD, ITERATIONS);
    assert_eq!(parse(NAME).decrypt(&suite), None);
    assert_eq!(parse(WRAPPED).decrypt(&suite), None);
}

#[test]
fn decrypt_text_utf8() {
    let suite = unlocked();
    assert_eq!(parse(UNI).decrypt(&suite), Some("caf\u{e9} \u{2605}".to_string()));
    assert_eq!(parse(BAD_UTF8).decrypt(&suite), None);
    let key = data_key();
    assert_eq!(parse(BAD_UTF8).decrypt_raw(&key[0..32], &key[32..64]).unwrap(), vec![0xff, 0xfe]);
}

#[test]
fn mac_rejects_every_single_bit_flip() {
    let key = data_key();
    let mac_key = &key[32..64];
    let e = parse(NAME);
    assert!(e.is_valid_mac(mac_key));
    for field in 0..3 {
        let len = match field {
            0 => e.iv.len(),
            1 => e.ct.len(),
            _ => e.mac.len(),
        };
        for i in 0..len {
            for bit in 0..8 {
                let mut f = e.clone();
                match field {
                    0 => f.iv[i] ^= 1 << bit,
                    1 => f.ct[i] ^= 1 << bit,
                    _ => f.mac[i] ^= 1 << bit,
                }
                assert!(!f.is_valid_mac(mac_key));
                assert!(matches!(f.decrypt_raw(&key[0..32], mac_key), Err(CipherError::InvalidMac)));
            }
        }
    }
}

#[test]
fn mac_rejects_truncated_tag() {
    let key = data_key();
    let mut e = parse(NAME);
    e.mac.pop();
    assert!(!e.is_valid_mac(&key[32..64]));
}

#[test]
fn invalid_key_length_after_mac() {
    let key = data_key();
    let r = parse(NAME).decrypt_raw(&key[0..16], &key[32..64]);
    assert!(matches!(r, Err(CipherError::InvalidKeyLength)));
}

#[test]
fn invalid_iv_length_after_mac() {
    let key = data_key();
    let iv = vec![1u8; 8];
    let ct = vec![2u8; 16];
    let mut message = iv.clone();
    message.extend_from_slice(&ct);
    let e = CipherString { type_: 2, mac: hmac_of(&key[32..64], &message), iv, ct };
    let r = e.decrypt_raw(&key[0..32], &key[32..64]);
    assert!(matches!(r, Err(CipherError::InvalidKeyLength)));
}

#[test]
fn partial_block_is_block_mode_error() {
    let key = data_key();
    let iv = vec![1u8; 16];
    let ct = vec![2u8; 5];
    let mut message = iv.clone();
    message.extend_from_slice(&ct);
    let e = CipherString { type_: 2, mac: hmac_of(&key[32..64], &message), iv, ct };
    assert!(e.is_valid_mac(&key[32..64]));
    let r = e.decrypt_raw(&key[0..32], &key[32..64]);
    assert!(matches!(r, Err(CipherError::BlockModeError)));
}

#[test]
fn default_suite_decrypts_nothing() {
    let mut suite = CipherSuite::default();
    assert_eq!(suite.master_key_hash, "");
    assert_eq!(parse(NAME).decrypt(&suite), None);
    assert!(matches!(suite.set_decrypt_key(&parse(WRAPPED)), Err(CipherError::InvalidMac)));
}
