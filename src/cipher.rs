//! Envelopes ("cipher strings"): their text form, their authentication and
//! their decryption.
use vstd::prelude::*;
use vstd::utf8::{decode_utf8, encode_utf8, is_ascii_chars, valid_utf8};

use crate::primitives::{
    aes256_cbc_decrypt, aes256_cbc_decrypt_of, base64_decoded, decode_base64, encode_base64,
    hkdf_expand, hkdf_expand_of, hmac_sha256_of, hmac_sha256_verify, pbkdf2_sha256,
    pbkdf2_sha256_of, push_char, utf8_to_string,
};
use crate::text::{
    all_base64_chars, all_digits, base64_of, decimal_of, lemma_base64_chars,
    lemma_base64_injective, lemma_decimal_round_trip, parse_scheme, scheme_of, write_decimal,
};

verus! {

/// Why an envelope could not be turned into plaintext or keys.
#[derive(Debug)]
pub enum CipherError {
    /// The authentication tag does not match: a wrong key or altered data.
    InvalidMac,
    /// The scheme tag is not the one supported scheme, `2`.
    InvalidKeyType,
    /// A key or IV of the wrong size, or unwrapped key material that is not
    /// 64 bytes.
    InvalidKeyLength,
    /// The ciphertext is not whole blocks or its padding is malformed.
    BlockModeError,
    /// The key ring cannot take a data key (it already holds one).
    DecryptionKeyError(String),
}

/// The value of an envelope: scheme tag, IV, ciphertext and MAC.
pub struct EnvelopeView {
    pub scheme: usize,
    pub iv: Seq<u8>,
    pub ct: Seq<u8>,
    pub mac: Seq<u8>,
}

/// An encrypted field: scheme tag, IV, ciphertext and MAC.
#[derive(Clone, Debug)]
pub struct CipherString {
    pub type_: usize,
    pub iv: Vec<u8>,
    pub ct: Vec<u8>,
    pub mac: Vec<u8>,
}

impl View for CipherString {
    type V = EnvelopeView;

    open spec fn view(&self) -> EnvelopeView {
        EnvelopeView { scheme: self.type_, iv: self.iv@, ct: self.ct@, mac: self.mac@ }
    }
}

/// The text form `{scheme}.{iv}|{ciphertext}|{mac}`, each byte field in base64.
pub open spec fn envelope_text(e: EnvelopeView) -> Seq<char> {
    decimal_of(e.scheme as nat) + seq!['.'] + base64_of(e.iv) + seq!['|'] + base64_of(e.ct)
        + seq!['|'] + base64_of(e.mac)
}

/// `s` is a head, a `.`, and three fields separated by `|`; the head holds no
/// `.` and the fields hold no `|`, which makes the split unique.
pub open spec fn envelope_split(
    s: Seq<char>,
    h: Seq<char>,
    a: Seq<char>,
    b: Seq<char>,
    c: Seq<char>,
) -> bool {
    &&& s == h + seq!['.'] + a + seq!['|'] + b + seq!['|'] + c
    &&& !h.contains('.')
    &&& !a.contains('|')
    &&& !b.contains('|')
    &&& !c.contains('|')
}

/// What an envelope text decodes to: ASCII text that splits into a decimal
/// scheme tag and three fields that each decode as base64.
pub open spec fn parse_envelope(s: Seq<char>) -> Option<EnvelopeView> {
    if is_ascii_chars(s) && exists|h: Seq<char>, a: Seq<char>, b: Seq<char>, c: Seq<char>|
        envelope_split(s, h, a, b, c) {
        let (h, a, b, c) = choose|h: Seq<char>, a: Seq<char>, b: Seq<char>, c: Seq<char>|
            envelope_split(s, h, a, b, c);
        match (scheme_of(h), base64_decoded(a), base64_decoded(b), base64_decoded(c)) {
            (Some(scheme), Some(iv), Some(ct), Some(mac)) => Some(
                EnvelopeView { scheme, iv, ct, mac },
            ),
            _ => None,
        }
    } else {
        None
    }
}

/// Each byte field is short enough for its base64 text to be addressable.
pub open spec fn encodable(e: EnvelopeView) -> bool {
    &&& e.iv.len() <= 3 * (usize::MAX / 4)
    &&& e.ct.len() <= 3 * (usize::MAX / 4)
    &&& e.mac.len() <= 3 * (usize::MAX / 4)
}

/// The MAC key is 32 bytes and the envelope's MAC is the HMAC-SHA256 of
/// `iv ‖ ciphertext` under it.
pub open spec fn mac_verifies(e: EnvelopeView, mac_key: Seq<u8>) -> bool {
    mac_key.len() == 32 && e.mac == hmac_sha256_of(mac_key, e.iv + e.ct)
}

/// Decryption of an envelope: scheme first, then the MAC, then the block
/// cipher and its padding.
pub open spec fn decrypt_outcome(e: EnvelopeView, key: Seq<u8>, mac_key: Seq<u8>) -> Result<
    Seq<u8>,
    CipherError,
> {
    if e.scheme != 2 {
        Err(CipherError::InvalidKeyType)
    } else if !mac_verifies(e, mac_key) {
        Err(CipherError::InvalidMac)
    } else if key.len() != 32 || e.iv.len() != 16 {
        Err(CipherError::InvalidKeyLength)
    } else {
        match aes256_cbc_decrypt_of(key, e.iv, e.ct) {
            Some(p) => Ok(p),
            None => Err(CipherError::BlockModeError),
        }
    }
}

/// Where the split of an envelope text puts its separators.
proof fn lemma_split_facts(s: Seq<char>, h: Seq<char>, a: Seq<char>, b: Seq<char>, c: Seq<char>)
    requires
        envelope_split(s, h, a, b, c),
    ensures
        ({
            let i0 = h.len() as int;
            let i1 = i0 + 1 + a.len();
            let i2 = i1 + 1 + b.len();
            &&& s.len() == i2 + 1 + c.len()
            &&& s[i0] == '.' && s[i1] == '|' && s[i2] == '|'
            &&& forall|j: int| 0 <= j < i0 ==> s[j] != '.'
            &&& forall|j: int| i0 < j < i1 ==> s[j] != '|'
            &&& forall|j: int| i1 < j < i2 ==> s[j] != '|'
            &&& forall|j: int| i2 < j < s.len() ==> s[j] != '|'
            &&& h == s.subrange(0, i0)
            &&& a == s.subrange(i0 + 1, i1)
            &&& b == s.subrange(i1 + 1, i2)
            &&& c == s.subrange(i2 + 1, s.len() as int)
        }),
{
    let i0 = h.len() as int;
    let i1 = i0 + 1 + a.len();
    let i2 = i1 + 1 + b.len();
    assert forall|j: int| 0 <= j < i0 implies s[j] != '.' by {
        assert(s[j] == h[j]);
    }
    assert forall|j: int| i0 < j < i1 implies s[j] != '|' by {
        assert(s[j] == a[j - i0 - 1]);
    }
    assert forall|j: int| i1 < j < i2 implies s[j] != '|' by {
        assert(s[j] == b[j - i1 - 1]);
    }
    assert forall|j: int| i2 < j < s.len() implies s[j] != '|' by {
        assert(s[j] == c[j - i2 - 1]);
    }
    assert(h == s.subrange(0, i0));
    assert(a == s.subrange(i0 + 1, i1));
    assert(b == s.subrange(i1 + 1, i2));
    assert(c == s.subrange(i2 + 1, s.len() as int));
}

/// An envelope text splits in one way only.
proof fn lemma_split_unique(
    s: Seq<char>,
    h: Seq<char>,
    a: Seq<char>,
    b: Seq<char>,
    c: Seq<char>,
    h2: Seq<char>,
    a2: Seq<char>,
    b2: Seq<char>,
    c2: Seq<char>,
)
    requires
        envelope_split(s, h, a, b, c),
        envelope_split(s, h2, a2, b2, c2),
    ensures
        h == h2 && a == a2 && b == b2 && c == c2,
{
    lemma_split_facts(s, h, a, b, c);
    lemma_split_facts(s, h2, a2, b2, c2);
    let i0 = h.len() as int;
    let k0 = h2.len() as int;
    assert(i0 == k0) by {
        if i0 < k0 {
            assert(s[i0] == '.');
        } else if k0 < i0 {
            assert(s[k0] == '.');
        }
    }
    let i1 = i0 + 1 + a.len();
    let k1 = k0 + 1 + a2.len();
    assert(i1 == k1) by {
        if i1 < k1 {
            assert(s[i1] == '|');
        } else if k1 < i1 {
            assert(s[k1] == '|');
        }
    }
    let i2 = i1 + 1 + b.len();
    let k2 = k1 + 1 + b2.len();
    assert(i2 == k2) by {
        if i2 < k2 {
            assert(s[i2] == '|');
        } else if k2 < i2 {
            assert(s[k2] == '|');
        }
    }
}

/// Splits the text of a serialised envelope into its own parts.
proof fn lemma_text_split(e: EnvelopeView)
    ensures
        envelope_split(
            envelope_text(e),
            decimal_of(e.scheme as nat),
            base64_of(e.iv),
            base64_of(e.ct),
            base64_of(e.mac),
        ),
        is_ascii_chars(envelope_text(e)),
{
    let d = decimal_of(e.scheme as nat);
    let x = base64_of(e.iv);
    let y = base64_of(e.ct);
    let z = base64_of(e.mac);
    lemma_decimal_round_trip(e.scheme as nat);
    lemma_base64_chars(e.iv);
    lemma_base64_chars(e.ct);
    lemma_base64_chars(e.mac);
    assert(!d.contains('.')) by {
        if d.contains('.') {
            let j = choose|j: int| 0 <= j < d.len() && d[j] == '.';
            assert(all_digits(d));
        }
    }
    assert forall|w: Seq<char>| all_base64_chars(w) implies !w.contains('|') by {
        if w.contains('|') {
            let j = choose|j: int| 0 <= j < w.len() && w[j] == '|';
            assert(all_base64_chars(w));
        }
    }
    let s = envelope_text(e);
    assert forall|j: int| 0 <= j < s.len() implies '\0' <= #[trigger] s[j] <= '\u{7f}' by {
        let i0 = d.len() as int;
        let i1 = i0 + 1 + x.len();
        let i2 = i1 + 1 + y.len();
        if j < i0 {
            assert(s[j] == d[j]);
        } else if j == i0 || j == i1 || j == i2 {
        } else if j < i1 {
            assert(s[j] == x[j - i0 - 1]);
        } else if j < i2 {
            assert(s[j] == y[j - i1 - 1]);
        } else {
            assert(s[j] == z[j - i2 - 1]);
        }
    }
}

/// Two first occurrences of `ch` from the same start are the same position.
proof fn lemma_first_at(s: Seq<char>, start: int, p: int, q: int, ch: char)
    requires
        start <= p <= s.len(),
        start <= q < s.len(),
        forall|j: int| start <= j < p ==> s[j] != ch,
        p < s.len() ==> s[p] == ch,
        forall|j: int| start <= j < q ==> s[j] != ch,
        s[q] == ch,
    ensures
        p == q,
{
}

/// The ASCII code of `.`, which ends the scheme tag.
const DOT: u8 = 46;

/// The ASCII code of `|`, which separates the byte fields.
const BAR: u8 = 124;

/// Returns the first position at or after `from` that holds the ASCII
/// character `b`, or the length of `s` when there is none.
fn find_ascii(s: &str, from: usize, b: u8) -> (r: usize)
    requires
        s.is_ascii(),
        from <= s@.len(),
        b < 128,
    ensures
        from <= r <= s@.len(),
        forall|j: int| from <= j < r ==> s@[j] != (b as char),
        r < s@.len() ==> s@[r as int] == (b as char),
{
    let n = s.unicode_len();
    let mut i = from;
    while i < n
        invariant
            n == s@.len(),
            s.is_ascii(),
            b < 128,
            from <= i <= n,
            forall|j: int| from <= j < i ==> s@[j] != (b as char),
        decreases n - i,
    {
        let c = s.get_ascii(i);
        proof {
            assert('\0' <= s@[i as int] <= '\u{7f}');
        }
        if c == b {
            return i;
        }
        i = i + 1;
    }
    i
}

impl CipherString {
    /// Reads an envelope from its text form; `None` where the text is not
    /// well formed.
    pub fn from_str(text: &str) -> (r: Option<CipherString>)
        requires
            text@.len() <= usize::MAX / 4,
        ensures
            match r {
                Some(e) => parse_envelope(text@) == Some(e@),
                None => parse_envelope(text@) is None,
            },
    {
        if !text.is_ascii() {
            return None;
        }
        broadcast use vstd::string::is_ascii_spec_bytes;

        let ghost s = text@;
        let n = text.unicode_len();
        let dot = find_ascii(text, 0, DOT);
        if dot == n {
            proof {
                assert forall|h: Seq<char>, a: Seq<char>, b: Seq<char>, c: Seq<char>|
                    !envelope_split(s, h, a, b, c) by {
                    if envelope_split(s, h, a, b, c) {
                        lemma_split_facts(s, h, a, b, c);
                        assert(s[h.len() as int] == '.');
                    }
                }
            }
            return None;
        }
        let bar1 = find_ascii(text, dot + 1, BAR);
        if bar1 == n {
            proof {
                assert forall|h: Seq<char>, a: Seq<char>, b: Seq<char>, c: Seq<char>|
                    !envelope_split(s, h, a, b, c) by {
                    if envelope_split(s, h, a, b, c) {
                        lemma_split_facts(s, h, a, b, c);
                        lemma_first_at(s, 0, dot as int, h.len() as int, '.');
                        assert(s[(h.len() + 1 + a.len()) as int] == '|');
                    }
                }
            }
            return None;
        }
        let bar2 = find_ascii(text, bar1 + 1, BAR);
        if bar2 == n {
            proof {
                assert forall|h: Seq<char>, a: Seq<char>, b: Seq<char>, c: Seq<char>|
                    !envelope_split(s, h, a, b, c) by {
                    if envelope_split(s, h, a, b, c) {
                        lemma_split_facts(s, h, a, b, c);
                        lemma_first_at(s, 0, dot as int, h.len() as int, '.');
                        lemma_first_at(s, dot + 1, bar1 as int, (h.len() + 1 + a.len()) as int, '|');
                        assert(s[(h.len() + 1 + a.len() + 1 + b.len()) as int] == '|');
                    }
                }
            }
            return None;
        }
        let extra = find_ascii(text, bar2 + 1, BAR);
        if extra != n {
            proof {
                assert forall|h: Seq<char>, a: Seq<char>, b: Seq<char>, c: Seq<char>|
                    !envelope_split(s, h, a, b, c) by {
                    if envelope_split(s, h, a, b, c) {
                        lemma_split_facts(s, h, a, b, c);
                        lemma_first_at(s, 0, dot as int, h.len() as int, '.');
                        lemma_first_at(s, dot + 1, bar1 as int, (h.len() + 1 + a.len()) as int, '|');
                        lemma_first_at(s, bar1 + 1, bar2 as int, (h.len() + 1 + a.len() + 1 + b.len()) as int, '|');
                        assert(s[extra as int] == '|');
                    }
                }
            }
            return None;
        }
        let ghost h = s.subrange(0, dot as int);
        let ghost a = s.subrange(dot + 1, bar1 as int);
        let ghost b = s.subrange(bar1 + 1, bar2 as int);
        let ghost c = s.subrange(bar2 + 1, n as int);
        proof {
            assert(s == h + seq!['.'] + a + seq!['|'] + b + seq!['|'] + c);
            assert(!h.contains('.')) by {
                if h.contains('.') {
                    let j = choose|j: int| 0 <= j < h.len() && h[j] == '.';
                    assert(s[j] == '.');
                }
            }
            assert(!a.contains('|')) by {
                if a.contains('|') {
                    let j = choose|j: int| 0 <= j < a.len() && a[j] == '|';
                    assert(s[dot + 1 + j] == '|');
                }
            }
            assert(!b.contains('|')) by {
                if b.contains('|') {
                    let j = choose|j: int| 0 <= j < b.len() && b[j] == '|';
                    assert(s[bar1 + 1 + j] == '|');
                }
            }
            assert(!c.contains('|')) by {
                if c.contains('|') {
                    let j = choose|j: int| 0 <= j < c.len() && c[j] == '|';
                    assert(s[bar2 + 1 + j] == '|');
                }
            }
            assert(envelope_split(s, h, a, b, c));
            let (h2, a2, b2, c2) = choose|
                h2: Seq<char>,
                a2: Seq<char>,
                b2: Seq<char>,
                c2: Seq<char>,
            | envelope_split(s, h2, a2, b2, c2);
            lemma_split_unique(s, h, a, b, c, h2, a2, b2, c2);
        }
        let type_ = match parse_scheme(text.substring_ascii(0, dot)) {
            Some(t) => t,
            None => {
                return None;
            },
        };
        let iv = match decode_base64(text.substring_ascii(dot + 1, bar1)) {
            Some(v) => v,
            None => {
                return None;
            },
        };
        let ct = match decode_base64(text.substring_ascii(bar1 + 1, bar2)) {
            Some(v) => v,
            None => {
                return None;
            },
        };
        let mac = match decode_base64(text.substring_ascii(bar2 + 1, n)) {
            Some(v) => v,
            None => {
                return None;
            },
        };
        Some(CipherString { type_, iv, ct, mac })
    }

    /// Writes the envelope in its text form, which reads back as the same
    /// envelope.
    pub fn as_str(&self) -> (r: String)
        requires
            encodable(self@),
        ensures
            r@ == envelope_text(self@),
            parse_envelope(r@) == Some(self@),
    {
        let mut out = String::new();
        write_decimal(self.type_, &mut out);
        push_char(&mut out, '.');
        let iv = encode_base64(self.iv.as_slice());
        out.append(iv.as_str());
        push_char(&mut out, '|');
        let ct = encode_base64(self.ct.as_slice());
        out.append(ct.as_str());
        push_char(&mut out, '|');
        let mac = encode_base64(self.mac.as_slice());
        out.append(mac.as_str());
        proof {
            let e = self@;
            let s = envelope_text(e);
            assert(out@ == s);
            lemma_text_split(e);
            let (h2, a2, b2, c2) = choose|
                h2: Seq<char>,
                a2: Seq<char>,
                b2: Seq<char>,
                c2: Seq<char>,
            | envelope_split(s, h2, a2, b2, c2);
            lemma_split_unique(
                s,
                decimal_of(e.scheme as nat),
                base64_of(e.iv),
                base64_of(e.ct),
                base64_of(e.mac),
                h2,
                a2,
                b2,
                c2,
            );
            lemma_decimal_round_trip(e.scheme as nat);
        }
        out
    }

    /// Whether the MAC key is 32 bytes and the envelope's MAC is the
    /// HMAC-SHA256 of `iv ‖ ciphertext` under it.
    pub fn is_valid_mac(&self, mac_key: &[u8]) -> (r: bool)
        ensures
            r == mac_verifies(self@, mac_key@),
    {
        if mac_key.len() != 32 {
            return false;
        }
        let mut message: Vec<u8> = Vec::new();
        let mut i: usize = 0;
        while i < self.iv.len()
            invariant
                0 <= i <= self.iv@.len(),
                message@ == self.iv@.subrange(0, i as int),
            decreases self.iv@.len() - i,
        {
            message.push(self.iv[i]);
            i = i + 1;
        }
        let mut j: usize = 0;
        while j < self.ct.len()
            invariant
                0 <= j <= self.ct@.len(),
                message@ == self.iv@ + self.ct@.subrange(0, j as int),
            decreases self.ct@.len() - j,
        {
            message.push(self.ct[j]);
            j = j + 1;
        }
        assert(self.ct@.subrange(0, self.ct@.len() as int) == self.ct@);
        hmac_sha256_verify(mac_key, message.as_slice(), self.mac.as_slice())
    }

    /// Checks the scheme, then the MAC, then decrypts with AES-256-CBC and
    /// removes the padding.
    pub fn decrypt_raw(&self, key: &[u8], mac: &[u8]) -> (r: Result<Vec<u8>, CipherError>)
        ensures
            match r {
                Ok(p) => decrypt_outcome(self@, key@, mac@) is Ok && decrypt_outcome(
                    self@,
                    key@,
                    mac@,
                )->Ok_0 == p@,
                Err(e) => decrypt_outcome(self@, key@, mac@) is Err && decrypt_outcome(
                    self@,
                    key@,
                    mac@,
                )->Err_0 == e,
            },
    {
        if self.type_ != 2 {
            return Err(CipherError::InvalidKeyType);
        }
        if !self.is_valid_mac(mac) {
            return Err(CipherError::InvalidMac);
        }
        aes256_cbc_decrypt(key, self.iv.as_slice(), self.ct.as_slice())
    }
}

/// The keys a key ring holds: the stretched pair derived from the master
/// password, or the data pair unwrapped with it. Each is `(enc, mac)`.
pub enum KeyState {
    Stretched(Seq<u8>, Seq<u8>),
    Unwrapped(Seq<u8>, Seq<u8>),
}

enum KeyRing {
    Stretched { enc_key: Vec<u8>, mac_key: Vec<u8> },
    Unwrapped { enc_key: Vec<u8>, mac_key: Vec<u8> },
}

/// The credentials derived from a login: the hash sent to the server, and the
/// key ring that turns envelopes into plaintext.
pub struct CipherSuite {
    pub master_key_hash: String,
    keys: KeyRing,
}

/// HKDF info label of the stretched encryption key, `"enc"`.
pub open spec fn enc_label() -> Seq<u8> {
    seq![101u8, 110u8, 99u8]
}

/// HKDF info label of the stretched MAC key, `"mac"`.
pub open spec fn mac_label() -> Seq<u8> {
    seq![109u8, 97u8, 99u8]
}

/// PBKDF2-HMAC-SHA256 of the password, salted with the email.
pub open spec fn master_key_of(email: Seq<char>, password: Seq<char>, iterations: nat) -> Seq<u8> {
    pbkdf2_sha256_of(encode_utf8(password), encode_utf8(email), iterations)
}

/// Base64 of one more PBKDF2 round over the master key, salted with the password.
pub open spec fn master_key_hash_of(email: Seq<char>, password: Seq<char>, iterations: nat) -> Seq<
    char,
> {
    base64_of(pbkdf2_sha256_of(master_key_of(email, password, iterations), encode_utf8(password), 1))
}

/// The stretched key pair: the master key expanded under the labels `"enc"`
/// and `"mac"`.
pub open spec fn stretched_of(email: Seq<char>, password: Seq<char>, iterations: nat) -> KeyState {
    let master = master_key_of(email, password, iterations);
    KeyState::Stretched(hkdf_expand_of(master, enc_label()), hkdf_expand_of(master, mac_label()))
}

/// The data key pair held in 64 bytes of unwrapped key material.
pub open spec fn unwrapped_of(p: Seq<u8>) -> KeyState {
    KeyState::Unwrapped(p.subrange(0, 32), p.subrange(32, 64))
}

/// Unwrapping a data key with the stretched keys: decryption of the wrapped
/// key, which must give exactly 64 bytes.
pub open spec fn unwrap_outcome(enc: Seq<u8>, mac: Seq<u8>, wrapped: EnvelopeView) -> Result<
    KeyState,
    CipherError,
> {
    match decrypt_outcome(wrapped, enc, mac) {
        Ok(p) => if p.len() == 64 {
            Ok(unwrapped_of(p))
        } else {
            Err(CipherError::InvalidKeyLength)
        },
        Err(e) => Err(e),
    }
}

/// Unwrapping a data key with the stretched keys derived from a login.
pub open spec fn login_unwrap_outcome(
    email: Seq<char>,
    password: Seq<char>,
    iterations: nat,
    wrapped: EnvelopeView,
) -> Result<KeyState, CipherError> {
    let master = master_key_of(email, password, iterations);
    unwrap_outcome(hkdf_expand_of(master, enc_label()), hkdf_expand_of(master, mac_label()), wrapped)
}

/// The text of a field: its decryption under the data keys, read as UTF-8.
/// Nothing decrypts before the data keys are unwrapped.
pub open spec fn decrypt_text_outcome(e: EnvelopeView, keys: KeyState) -> Option<Seq<char>> {
    match keys {
        KeyState::Stretched(..) => None,
        KeyState::Unwrapped(enc, mac) => match decrypt_outcome(e, enc, mac) {
            Ok(p) => if valid_utf8(p) {
                Some(decode_utf8(p))
            } else {
                None
            },
            Err(_) => None,
        },
    }
}

/// The stretched encryption key, the master key hash and the stretched MAC
/// key for a login.
fn derive_master_key(email: &str, password: &str, iterations: u32) -> (r: (Vec<u8>, String, Vec<u8>))
    ensures
        stretched_of(email@, password@, iterations as nat) == KeyState::Stretched(r.0@, r.2@),
        r.1@ == master_key_hash_of(email@, password@, iterations as nat),
{
    let password_bytes = password.as_bytes();
    let master_key = pbkdf2_sha256(password_bytes, email.as_bytes(), iterations);
    let hash = pbkdf2_sha256(master_key.as_slice(), password_bytes, 1);
    let enc_info: Vec<u8> = vec![101u8, 110u8, 99u8];
    let mac_info: Vec<u8> = vec![109u8, 97u8, 99u8];
    assert(enc_info@ == enc_label());
    assert(mac_info@ == mac_label());
    let enc_key = hkdf_expand(master_key.as_slice(), enc_info.as_slice());
    let mac_key = hkdf_expand(master_key.as_slice(), mac_info.as_slice());
    (enc_key, encode_base64(hash.as_slice()), mac_key)
}

impl CipherSuite {
    /// The keys the ring holds now.
    pub closed spec fn key_state(&self) -> KeyState {
        match self.keys {
            KeyRing::Stretched { enc_key, mac_key } => KeyState::Stretched(enc_key@, mac_key@),
            KeyRing::Unwrapped { enc_key, mac_key } => KeyState::Unwrapped(enc_key@, mac_key@),
        }
    }

    /// The master key hash, as text.
    pub closed spec fn hash_text(&self) -> Seq<char> {
        self.master_key_hash@
    }

    /// This suite is what a login with these credentials derives.
    pub open spec fn derived_from(&self, email: Seq<char>, password: Seq<char>, iterations: nat) -> bool {
        &&& self.hash_text() == master_key_hash_of(email, password, iterations)
        &&& self.key_state() == stretched_of(email, password, iterations)
    }

    /// Derives the master key from the password and email, the hash that
    /// stands for the password at the server, and the stretched key pair.
    pub fn from(email: &str, password: &str, kdf_iterations: u32) -> (r: Self)
        ensures
            r.derived_from(email@, password@, kdf_iterations as nat),
    {
        let (enc_key, master_key_hash, mac_key) = derive_master_key(email, password, kdf_iterations);
        CipherSuite { master_key_hash, keys: KeyRing::Stretched { enc_key, mac_key } }
    }

    /// Unwraps the data key pair from the wrapped-key envelope with the
    /// stretched keys. It is taken only once: after that, and on any failure,
    /// the ring is left as it was.
    pub fn set_decrypt_key(&mut self, key: &CipherString) -> (r: Result<(), CipherError>)
        ensures
            final(self).hash_text() == old(self).hash_text(),
            old(self).key_state() is Unwrapped ==> (r matches Err(
                CipherError::DecryptionKeyError(_),
            )) && final(self).key_state() == old(self).key_state(),
            old(self).key_state() matches KeyState::Stretched(enc, mac) ==> match unwrap_outcome(
                enc,
                mac,
                key@,
            ) {
                Ok(state) => r is Ok && final(self).key_state() == state,
                Err(e) => r is Err && r->Err_0 == e && final(self).key_state() == old(
                    self,
                ).key_state(),
            },
    {
        match &self.keys {
            KeyRing::Unwrapped { .. } => {
                return Err(CipherError::DecryptionKeyError("the data key is already set".to_owned()));
            },
            KeyRing::Stretched { enc_key, mac_key } => {
                let mut data = match key.decrypt_raw(enc_key.as_slice(), mac_key.as_slice()) {
                    Ok(p) => p,
                    Err(e) => {
                        return Err(e);
                    },
                };
                if data.len() != 64 {
                    return Err(CipherError::InvalidKeyLength);
                }
                let data_mac = data.split_off(32);
                self.keys = KeyRing::Unwrapped { enc_key: data, mac_key: data_mac };
                Ok(())
            },
        }
    }

    /// Whether the data key pair has been unwrapped.
    pub fn is_unlocked(&self) -> (r: bool)
        ensures
            r == self.key_state() is Unwrapped,
    {
        match &self.keys {
            KeyRing::Unwrapped { .. } => true,
            KeyRing::Stretched { .. } => false,
        }
    }
}

impl Default for CipherSuite {
    /// An empty suite: no hash and a stretched pair of empty keys, which
    /// authenticates nothing.
    fn default() -> (r: Self)
        ensures
            r.hash_text() == Seq::<char>::empty(),
            r.key_state() == KeyState::Stretched(Seq::empty(), Seq::empty()),
    {
        CipherSuite {
            master_key_hash: String::new(),
            keys: KeyRing::Stretched { enc_key: Vec::new(), mac_key: Vec::new() },
        }
    }
}

impl CipherString {
    /// Decrypts this field with the suite's data keys and reads it as UTF-8
    /// text; `None` on any failure, and before the data keys are unwrapped.
    pub fn decrypt(&self, cipher: &CipherSuite) -> (r: Option<String>)
        ensures
            match r {
                Some(s) => decrypt_text_outcome(self@, cipher.key_state()) == Some(s@),
                None => decrypt_text_outcome(self@, cipher.key_state()) is None,
            },
    {
        match &cipher.keys {
            KeyRing::Stretched { .. } => None,
            KeyRing::Unwrapped { enc_key, mac_key } => {
                match self.decrypt_raw(enc_key.as_slice(), mac_key.as_slice()) {
                    Ok(p) => utf8_to_string(p),
                    Err(_) => None,
                }
            },
        }
    }
}

/// Serialisation is injective: two envelopes with the same text form are the
/// same envelope.
pub proof fn lemma_envelope_text_injective(e1: EnvelopeView, e2: EnvelopeView)
    requires
        envelope_text(e1) == envelope_text(e2),
    ensures
        e1 == e2,
{
    lemma_text_split(e1);
    lemma_text_split(e2);
    lemma_split_unique(
        envelope_text(e1),
        decimal_of(e1.scheme as nat),
        base64_of(e1.iv),
        base64_of(e1.ct),
        base64_of(e1.mac),
        decimal_of(e2.scheme as nat),
        base64_of(e2.iv),
        base64_of(e2.ct),
        base64_of(e2.mac),
    );
    lemma_decimal_round_trip(e1.scheme as nat);
    lemma_decimal_round_trip(e2.scheme as nat);
    lemma_base64_injective(e1.iv, e2.iv);
    lemma_base64_injective(e1.ct, e2.ct);
    lemma_base64_injective(e1.mac, e2.mac);
}

/// Flipping any single bit of the MAC of an envelope that verifies makes it
/// fail verification under the same key.
pub proof fn lemma_mac_bit_flip_rejected(e: EnvelopeView, mac_key: Seq<u8>, i: int, bit: u8)
    requires
        mac_verifies(e, mac_key),
        0 <= i < e.mac.len(),
        bit < 8,
    ensures
        !mac_verifies(
            EnvelopeView { scheme: e.scheme, iv: e.iv, ct: e.ct, mac: e.mac.update(i, e.mac[i] ^ (1u8 << bit)) },
            mac_key,
        ),
{
    let x = e.mac[i];
    assert(x ^ (1u8 << bit) != x) by (bit_vector)
        requires
            bit < 8,
    ;
    assert(e.mac.update(i, x ^ (1u8 << bit))[i] != e.mac[i]);
}

/// Unwrapping authenticates before it decrypts: it succeeds only where the
/// wrapped key's MAC verifies under the stretched MAC key, and a wrapped key
/// whose MAC does not verify (as under a wrong master password) fails with
/// `InvalidMac` and no other error.
pub proof fn lemma_unwrap_authenticates(enc: Seq<u8>, mac: Seq<u8>, wrapped: EnvelopeView)
    requires
        wrapped.scheme == 2,
    ensures
        unwrap_outcome(enc, mac, wrapped) is Ok ==> mac_verifies(wrapped, mac),
        !mac_verifies(wrapped, mac) ==> unwrap_outcome(enc, mac, wrapped) == Err::<
            KeyState,
            CipherError,
        >(CipherError::InvalidMac),
{
}

/// Key derivation is deterministic: two suites derived from the same email,
/// password and iteration count hold the same hash and the same keys.
pub proof fn lemma_derivation_deterministic(
    a: CipherSuite,
    b: CipherSuite,
    email: Seq<char>,
    password: Seq<char>,
    iterations: nat,
)
    requires
        a.derived_from(email, password, iterations),
        b.derived_from(email, password, iterations),
    ensures
        a.hash_text() == b.hash_text(),
        a.key_state() == b.key_state(),
{
}

} // verus!
