//! The vault records as the library reads them: every encrypted field is an
//! envelope.
use vstd::prelude::*;

use crate::cipher::CipherString;

verus! {

/// A custom field of a record.
pub struct CipherEntryFields {
    pub type_: usize,
    pub name: CipherString,
    pub value: CipherString,
}

/// A URI of a login record, with its match rule.
pub struct CipherEntryUriMatch {
    pub uri: CipherString,
    pub match_: Option<usize>,
}

/// The login data of a record.
pub struct CipherEntryData {
    pub uri: Option<CipherString>,
    pub uris: Option<Vec<CipherEntryUriMatch>>,
    pub username: CipherString,
    pub password: CipherString,
    pub totp: Option<String>,
    pub name: CipherString,
    pub notes: Option<String>,
    pub fields: Option<Vec<CipherEntryFields>>,
}

/// One record of the vault.
pub struct CipherEntry {
    pub favorite: bool,
    pub edit: bool,
    pub type_: usize,
    pub data: CipherEntryData,
    pub name: CipherString,
    pub notes: Option<String>,
    pub fields: Option<Vec<CipherEntryFields>>,
}

/// Equivalent-domain settings of the account; none are read.
pub struct Domains {}

} // verus!
