//! The cryptographic and encoding primitives this library relies on, each
//! behind a small trusted function whose contract states what the library
//! takes the outside code to do.
use vstd::prelude::*;
use vstd::string::StringSliceAdditionalSpecFns;
use vstd::utf8::{decode_utf8, valid_utf8};

use aes::Aes256;
use block_modes::block_padding::Pkcs7;
use block_modes::{BlockMode, Cbc};
use fuzzy_matcher::skim::SkimMatcherV2;
use fuzzy_matcher::FuzzyMatcher;
use hkdf::Hkdf;
use hmac::{Hmac, Mac, NewMac};
use sha2::Sha256;

use crate::cipher::CipherError;
use crate::text::base64_of;

verus! {

/// PBKDF2 with HMAC-SHA256 as its pseudo-random function, 32 bytes of output.
pub uninterp spec fn pbkdf2_sha256_of(password: Seq<u8>, salt: Seq<u8>, rounds: nat) -> Seq<u8>;

/// HKDF-Expand with SHA-256 from a pseudo-random key, 32 bytes of output.
pub uninterp spec fn hkdf_expand_of(prk: Seq<u8>, info: Seq<u8>) -> Seq<u8>;

/// The 32-byte HMAC-SHA256 tag of a message.
pub uninterp spec fn hmac_sha256_of(key: Seq<u8>, message: Seq<u8>) -> Seq<u8>;

/// AES-256-CBC decryption followed by removal of PKCS#7 padding; `None` where
/// the ciphertext is not whole blocks or the padding is malformed.
pub uninterp spec fn aes256_cbc_decrypt_of(key: Seq<u8>, iv: Seq<u8>, ct: Seq<u8>) -> Option<Seq<u8>>;

/// What standard padded base64 decoding makes of a text; `None` where the
/// text is not accepted.
pub uninterp spec fn base64_decoded(s: Seq<char>) -> Option<Seq<u8>>;

/// The score of a fuzzy match of a pattern against a text; `None` where the
/// pattern does not match.
pub uninterp spec fn fuzzy_score_of(choice: Seq<char>, pattern: Seq<char>) -> Option<i64>;

/// Relies on `pbkdf2::pbkdf2::<Hmac<Sha256>>`, run into a 32-byte buffer; it
/// accepts every password, salt and round count.
#[verifier::external_body]
pub(crate) fn pbkdf2_sha256(password: &[u8], salt: &[u8], rounds: u32) -> (r: Vec<u8>)
    ensures
        r@ == pbkdf2_sha256_of(password@, salt@, rounds as nat),
        r@.len() == 32,
{
    let mut out = vec![0u8; 32];
    pbkdf2::pbkdf2::<Hmac<Sha256>>(password, salt, rounds, &mut out);
    out
}

/// Relies on `hkdf::Hkdf::<Sha256>::from_prk`, which accepts a key of at
/// least 32 bytes, and its `expand` into a 32-byte buffer, which is below the
/// 255-block limit.
#[verifier::external_body]
pub(crate) fn hkdf_expand(prk: &[u8], info: &[u8]) -> (r: Vec<u8>)
    requires
        prk@.len() >= 32,
    ensures
        r@ == hkdf_expand_of(prk@, info@),
        r@.len() == 32,
{
    let hkdf = Hkdf::<Sha256>::from_prk(prk).unwrap();
    let mut out = vec![0u8; 32];
    hkdf.expand(info, &mut out).unwrap();
    out
}

/// Relies on `hmac::Hmac::<Sha256>` (any key length is accepted) and its
/// `verify`, a constant-time comparison that fails on a length mismatch.
#[verifier::external_body]
pub(crate) fn hmac_sha256_verify(key: &[u8], message: &[u8], tag: &[u8]) -> (r: bool)
    ensures
        r == (tag@ == hmac_sha256_of(key@, message@)),
{
    let mut mac = Hmac::<Sha256>::new_from_slice(key).unwrap();
    mac.update(message);
    mac.verify(tag).is_ok()
}

/// Relies on `block_modes::Cbc::<Aes256, Pkcs7>::new_from_slices`, which
/// fails exactly when the key is not 32 bytes or the IV not 16, and on its
/// `decrypt_vec`.
#[verifier::external_body]
pub(crate) fn aes256_cbc_decrypt(key: &[u8], iv: &[u8], ct: &[u8]) -> (r: Result<Vec<u8>, CipherError>)
    ensures
        key@.len() != 32 || iv@.len() != 16 ==> r matches Err(CipherError::InvalidKeyLength),
        key@.len() == 32 && iv@.len() == 16 ==> match r {
            Ok(p) => aes256_cbc_decrypt_of(key@, iv@, ct@) == Some(p@),
            Err(e) => e == CipherError::BlockModeError && aes256_cbc_decrypt_of(key@, iv@, ct@) is None,
        },
{
    Cbc::<Aes256, Pkcs7>::new_from_slices(key, iv)
        .map_err(|_| CipherError::InvalidKeyLength)?
        .decrypt_vec(ct)
        .map_err(|_| CipherError::BlockModeError)
}

/// Relies on `base64::encode`: standard alphabet with padding, and the text
/// decodes back to the same bytes. It panics only where the length of the
/// text would overflow.
#[verifier::external_body]
pub(crate) fn encode_base64(b: &[u8]) -> (r: String)
    requires
        b@.len() <= 3 * (usize::MAX / 4),
    ensures
        r@ == base64_of(b@),
        base64_decoded(r@) == Some(b@),
{
    base64::encode(b)
}

/// Relies on `base64::decode`, standard alphabet with padding; its buffer
/// estimate overflows only on texts beyond a quarter of the address space.
#[verifier::external_body]
pub(crate) fn decode_base64(s: &str) -> (r: Option<Vec<u8>>)
    requires
        s.spec_bytes().len() <= usize::MAX / 4,
    ensures
        match r {
            Some(v) => base64_decoded(s@) == Some(v@),
            None => base64_decoded(s@) is None,
        },
{
    base64::decode(s).ok()
}

/// Relies on `String::from_utf8`: it succeeds exactly on valid UTF-8.
#[verifier::external_body]
pub(crate) fn utf8_to_string(b: Vec<u8>) -> (r: Option<String>)
    ensures
        match r {
            Some(s) => valid_utf8(b@) && s@ == decode_utf8(b@),
            None => !valid_utf8(b@),
        },
{
    String::from_utf8(b).ok()
}

/// Relies on `String::push`, which appends one character.
#[verifier::external_body]
pub(crate) fn push_char(s: &mut String, c: char)
    ensures
        final(s)@ == old(s)@.push(c),
{
    s.push(c);
}

/// Relies on `fuzzy_matcher::skim::SkimMatcherV2` in its default
/// configuration and its `fuzzy_match`, whose score depends on the two texts
/// alone; an empty pattern scores 0.
#[verifier::external_body]
pub(crate) fn fuzzy_score(choice: &str, pattern: &str) -> (r: Option<i64>)
    ensures
        r == fuzzy_score_of(choice@, pattern@),
        pattern@.len() == 0 ==> r == Some(0i64),
{
    SkimMatcherV2::default().fuzzy_match(choice, pattern)
}

} // verus!
