//! The projection of vault records to plaintext entries.
use vstd::prelude::*;

use crate::api_definition::CipherEntry;
use crate::cipher::{
    decrypt_text_outcome, login_unwrap_outcome, master_key_hash_of, CipherError, CipherString,
    CipherSuite, KeyState,
};
use crate::primitives::push_char;

verus! {

/// A record in plaintext, ready for display.
pub struct VaultEntry {
    pub name: String,
    pub username: String,
    pub password: String,
    pub favorite: String,
}

/// The value of a plaintext entry.
pub struct VaultEntryView {
    pub name: Seq<char>,
    pub username: Seq<char>,
    pub password: Seq<char>,
    pub favorite: Seq<char>,
}

impl View for VaultEntry {
    type V = VaultEntryView;

    open spec fn view(&self) -> VaultEntryView {
        VaultEntryView {
            name: self.name@,
            username: self.username@,
            password: self.password@,
            favorite: self.favorite@,
        }
    }
}

/// A filled star for a favourite record, an empty one otherwise.
pub open spec fn favorite_mark(favorite: bool) -> Seq<char> {
    if favorite {
        seq!['\u{2605}']
    } else {
        seq!['\u{2606}']
    }
}

/// The plaintext of a record: its name, username and password all decrypt,
/// or the record has none.
pub open spec fn project_entry(entry: CipherEntry, keys: KeyState) -> Option<VaultEntryView> {
    match (
        decrypt_text_outcome(entry.name@, keys),
        decrypt_text_outcome(entry.data.username@, keys),
        decrypt_text_outcome(entry.data.password@, keys),
    ) {
        (Some(name), Some(username), Some(password)) => Some(
            VaultEntryView { name, username, password, favorite: favorite_mark(entry.favorite) },
        ),
        _ => None,
    }
}

/// The plaintext entries of the records that decrypt, in record order.
pub open spec fn project_all(entries: Seq<CipherEntry>, keys: KeyState) -> Seq<VaultEntryView>
    decreases entries.len(),
{
    if entries.len() == 0 {
        Seq::empty()
    } else {
        let rest = project_all(entries.drop_last(), keys);
        match project_entry(entries.last(), keys) {
            Some(v) => rest.push(v),
            None => rest,
        }
    }
}

impl VaultEntry {
    /// Decrypts the name, username and password of a record; `None` when any
    /// of them does not decrypt.
    pub fn from_cipher_entry(entry: &CipherEntry, cipher: &CipherSuite) -> (r: Option<VaultEntry>)
        ensures
            match r {
                Some(v) => project_entry(*entry, cipher.key_state()) == Some(v@),
                None => project_entry(*entry, cipher.key_state()) is None,
            },
    {
        let name = match entry.name.decrypt(cipher) {
            Some(s) => s,
            None => {
                return None;
            },
        };
        let username = match entry.data.username.decrypt(cipher) {
            Some(s) => s,
            None => {
                return None;
            },
        };
        let password = match entry.data.password.decrypt(cipher) {
            Some(s) => s,
            None => {
                return None;
            },
        };
        let mut favorite = String::new();
        push_char(&mut favorite, if entry.favorite { '\u{2605}' } else { '\u{2606}' });
        Some(VaultEntry { name, username, password, favorite })
    }
}

/// Decrypts every record that fully decrypts and drops the others, keeping
/// the order of the records.
pub fn decrypt(ciphers: &Vec<CipherEntry>, cipher: &CipherSuite) -> (r: Vec<VaultEntry>)
    ensures
        r@.map_values(|v: VaultEntry| v@) == project_all(ciphers@, cipher.key_state()),
{
    let mut out: Vec<VaultEntry> = Vec::new();
    let mut i: usize = 0;
    while i < ciphers.len()
        invariant
            0 <= i <= ciphers@.len(),
            out@.map_values(|v: VaultEntry| v@) == project_all(
                ciphers@.subrange(0, i as int),
                cipher.key_state(),
            ),
        decreases ciphers@.len() - i,
    {
        let ghost before = out@;
        let ghost prefix = ciphers@.subrange(0, i as int + 1);
        assert(prefix.drop_last() == ciphers@.subrange(0, i as int));
        assert(prefix.last() == ciphers@[i as int]);
        match VaultEntry::from_cipher_entry(&ciphers[i], cipher) {
            Some(v) => {
                out.push(v);
                assert(out@.map_values(|v: VaultEntry| v@) =~= before.map_values(
                    |v: VaultEntry| v@,
                ).push(v@));
            },
            None => {},
        }
        i = i + 1;
    }
    assert(ciphers@.subrange(0, ciphers@.len() as int) == ciphers@);
    out
}

/// Unlocks a vault with the master password: derives the credentials,
/// unwraps the data keys from the wrapped key, and decrypts the records. Any
/// failure to unwrap is returned as it came and leaves nothing unlocked.
pub fn unlock(
    email: &str,
    password: &str,
    kdf_iterations: u32,
    key: &CipherString,
    ciphers: &Vec<CipherEntry>,
) -> (r: Result<(CipherSuite, Vec<VaultEntry>), CipherError>)
    ensures
        match login_unwrap_outcome(email@, password@, kdf_iterations as nat, key@) {
            Ok(keys) => r matches Ok((suite, entries)) && suite.key_state() == keys
                && suite.hash_text() == master_key_hash_of(email@, password@, kdf_iterations as nat)
                && entries@.map_values(|v: VaultEntry| v@) == project_all(ciphers@, keys),
            Err(e) => r matches Err(f) && f == e,
        },
{
    let mut suite = CipherSuite::from(email, password, kdf_iterations);
    match suite.set_decrypt_key(key) {
        Ok(()) => {},
        Err(e) => {
            return Err(e);
        },
    }
    let entries = decrypt(ciphers, &suite);
    Ok((suite, entries))
}

} // verus!
