//! Decryption of a password-manager vault export: key derivation from the
//! master password, the envelope text format of encrypted fields, their
//! authenticated decryption, and the projection of vault records to
//! plaintext entries.
use vstd::prelude::*;

pub mod api;
pub mod api_definition;
pub mod cipher;
pub mod primitives;
pub mod search;
pub mod text;
pub mod vault;

verus! {

} // verus!
