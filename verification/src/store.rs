//! The vault's store: one keyed table for each kind of row.

use crate::error::Error;
use crate::model::{Attachment, Cipher, CipherModel, Folder};
use crate::table::{row_at, Table};
use vstd::prelude::*;

verus! {

/// The tables of the vault. Ciphers and folders are owned by users,
/// attachments by ciphers.
pub struct Store {
    pub ciphers: Table<Cipher>,
    pub folders: Table<Folder>,
    pub attachments: Table<Attachment>,
}

impl Store {
    /// A store without rows.
    pub fn new() -> (store: Store)
        ensures
            store.ciphers@ == Seq::<CipherModel>::empty(),
            store.folders@ == Seq::<crate::model::FolderModel>::empty(),
            store.attachments@ == Seq::<crate::model::AttachmentModel>::empty(),
    {
        Store { ciphers: Table::new(), folders: Table::new(), attachments: Table::new() }
    }
}

/// Why a user may not work on a cipher, if so: the cipher must exist and
/// belong to the user.
pub open spec fn access_error(
    ciphers: Seq<CipherModel>,
    user: Seq<char>,
    uuid: Seq<char>,
) -> Option<Error> {
    match row_at::<Cipher>(ciphers, uuid) {
        None => Some(Error::CipherNotFound),
        Some(cipher) => if cipher.user_uuid != user {
            Some(Error::CipherNotOwned)
        } else {
            None
        },
    }
}

/// The cipher with the given id, if it exists and belongs to the user.
pub fn owned_cipher(store: &Store, user_uuid: &String, uuid: &String) -> (result: Result<
    Cipher,
    Error,
>)
    ensures
        match result {
            Ok(cipher) => access_error(store.ciphers@, user_uuid@, uuid@) is None && row_at::<
                Cipher,
            >(store.ciphers@, uuid@) == Some(cipher@),
            Err(e) => access_error(store.ciphers@, user_uuid@, uuid@) == Some(e),
        },
{
    match store.ciphers.find(uuid) {
        Some(cipher) => {
            if cipher.user_uuid == *user_uuid {
                Ok(cipher)
            } else {
                Err(Error::CipherNotOwned)
            }
        },
        None => Err(Error::CipherNotFound),
    }
}

} // verus!
