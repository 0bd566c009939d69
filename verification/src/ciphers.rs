//! The operations on ciphers: read one, read all, create, replace, delete,
//! and the purge of everything a user has.
//!
//! Every operation names the user on whose behalf it runs. A cipher of
//! another user is never shown and never changed. An operation that fails
//! leaves the store as it was.

use crate::attachments::{blob_keys, key_models, keys_of, BlobKey, BlobKeyModel};
use crate::error::Error;
use crate::merge::{merge_error, merged, update_cipher_from_data, CipherData, CipherDataModel};
use crate::model::{Attachment, AttachmentModel, Cipher, CipherModel, Folder, FolderModel};
use crate::store::{access_error, owned_cipher, Store};
use crate::table::{owned_by, row_at, views, with_row, without_key, without_owner};
use vstd::prelude::*;

verus! {

/// Whether `entry` is the cipher `cipher` together with the attachments that
/// the table holds for it, in the table's order.
pub open spec fn is_entry(
    attachments: Seq<AttachmentModel>,
    cipher: CipherModel,
    entry: (Cipher, Vec<Attachment>),
) -> bool {
    &&& entry.0@ == cipher
    &&& views::<Attachment>(entry.1@) == owned_by::<Attachment>(attachments, cipher.uuid)
}

/// Every cipher of the user, each with its attachments, in the table's
/// order.
pub fn get_ciphers(store: &Store, user_uuid: &String) -> (entries: Vec<(Cipher, Vec<Attachment>)>)
    ensures
        entries@.len() == owned_by::<Cipher>(store.ciphers@, user_uuid@).len(),
        forall|i: int|
            0 <= i < entries@.len() ==> is_entry(
                store.attachments@,
                owned_by::<Cipher>(store.ciphers@, user_uuid@)[i],
                #[trigger] entries@[i],
            ),
{
    let ciphers = store.ciphers.find_by_owner(user_uuid);
    let ghost owned = owned_by::<Cipher>(store.ciphers@, user_uuid@);
    let mut entries: Vec<(Cipher, Vec<Attachment>)> = Vec::new();
    let mut i: usize = 0;
    while i < ciphers.len()
        invariant
            i <= ciphers.len(),
            views::<Cipher>(ciphers@) == owned,
            entries@.len() == i,
            forall|j: int|
                0 <= j < i ==> is_entry(store.attachments@, owned[j], #[trigger] entries@[j]),
        decreases ciphers.len() - i,
    {
        let cipher = ciphers[i].clone();
        assert(owned[i as int] == ciphers@[i as int]@);
        let attachments = store.attachments.find_by_owner(&cipher.uuid);
        entries.push((cipher, attachments));
        i += 1;
    }
    entries
}

/// The cipher with the given id and its attachments, if it exists and
/// belongs to the user.
pub fn get_cipher(store: &Store, user_uuid: &String, uuid: &String) -> (result: Result<
    (Cipher, Vec<Attachment>),
    Error,
>)
    ensures
        match result {
            Ok(entry) => {
                &&& access_error(store.ciphers@, user_uuid@, uuid@) is None
                &&& is_entry(
                    store.attachments@,
                    row_at::<Cipher>(store.ciphers@, uuid@)->Some_0,
                    entry,
                )
            },
            Err(e) => access_error(store.ciphers@, user_uuid@, uuid@) == Some(e),
        },
{
    match owned_cipher(store, user_uuid, uuid) {
        Ok(cipher) => {
            let attachments = store.attachments.find_by_owner(&cipher.uuid);
            Ok((cipher, attachments))
        },
        Err(e) => Err(e),
    }
}

/// The cipher that `post_ciphers` creates from the submitted fields.
pub open spec fn created(uuid: Seq<char>, user: Seq<char>, data: CipherDataModel) -> CipherModel {
    merged(CipherModel::fresh(uuid, user, data.type_, data.name, data.favorite), data)
}

/// Creates a cipher of the user under a new id from the submitted fields and
/// saves it. Returns the cipher with its attachments. The id is the caller's
/// to draw, at random: a row that has it already is replaced.
pub fn post_ciphers(
    store: &mut Store,
    user_uuid: &String,
    uuid: String,
    data: CipherData,
) -> (result: Result<(Cipher, Vec<Attachment>), Error>)
    ensures
        final(store).folders@ == old(store).folders@,
        final(store).attachments@ == old(store).attachments@,
        match result {
            Ok(entry) => {
                &&& merge_error(old(store).folders@, user_uuid@, data@) is None
                &&& final(store).ciphers@ == with_row::<Cipher>(
                    old(store).ciphers@,
                    created(uuid@, user_uuid@, data@),
                )
                &&& is_entry(old(store).attachments@, created(uuid@, user_uuid@, data@), entry)
            },
            Err(e) => {
                &&& merge_error(old(store).folders@, user_uuid@, data@) == Some(e)
                &&& final(store).ciphers@ == old(store).ciphers@
            },
        },
{
    let favorite = data.favorite;
    let mut cipher = Cipher::new(uuid, user_uuid.clone(), data.type_, data.name.clone(), favorite);
    match update_cipher_from_data(&mut cipher, data, user_uuid, store) {
        Ok(()) => {},
        Err(e) => {
            return Err(e);
        },
    }
    store.ciphers.save(cipher.clone());
    let attachments = store.attachments.find_by_owner(&cipher.uuid);
    Ok((cipher, attachments))
}

/// Why a cipher may not be replaced, if so. The right to work on the cipher
/// is judged first, then the submitted fields.
pub open spec fn put_error(
    ciphers: Seq<CipherModel>,
    folders: Seq<FolderModel>,
    user: Seq<char>,
    uuid: Seq<char>,
    data: CipherDataModel,
) -> Option<Error> {
    match access_error(ciphers, user, uuid) {
        Some(e) => Some(e),
        None => merge_error(folders, user, data),
    }
}

/// The cipher that `put_cipher` leaves in the place of `row`: the row's id
/// and owner stay; type, name, notes, custom fields, stored payload and the
/// favorite mark are those submitted; folder and organization are those
/// submitted where any were, and stay otherwise.
pub open spec fn replaced(row: CipherModel, data: CipherDataModel) -> CipherModel {
    merged(CipherModel { favorite: data.favorite, ..row }, data)
}

/// Replaces what a cipher of the user holds by the submitted fields and saves
/// it. Returns the cipher with its attachments.
pub fn put_cipher(
    store: &mut Store,
    user_uuid: &String,
    uuid: &String,
    data: CipherData,
) -> (result: Result<(Cipher, Vec<Attachment>), Error>)
    ensures
        final(store).folders@ == old(store).folders@,
        final(store).attachments@ == old(store).attachments@,
        match result {
            Ok(entry) => {
                &&& put_error(old(store).ciphers@, old(store).folders@, user_uuid@, uuid@, data@)
                    is None
                &&& final(store).ciphers@ == with_row::<Cipher>(
                    old(store).ciphers@,
                    replaced(row_at::<Cipher>(old(store).ciphers@, uuid@)->Some_0, data@),
                )
                &&& is_entry(
                    old(store).attachments@,
                    replaced(row_at::<Cipher>(old(store).ciphers@, uuid@)->Some_0, data@),
                    entry,
                )
            },
            Err(e) => {
                &&& put_error(old(store).ciphers@, old(store).folders@, user_uuid@, uuid@, data@)
                    == Some(e)
                &&& final(store).ciphers@ == old(store).ciphers@
            },
        },
{
    let mut cipher = match owned_cipher(store, user_uuid, uuid) {
        Ok(cipher) => cipher,
        Err(e) => {
            return Err(e);
        },
    };
    cipher.favorite = data.favorite;
    match update_cipher_from_data(&mut cipher, data, user_uuid, store) {
        Ok(()) => {},
        Err(e) => {
            return Err(e);
        },
    }
    store.ciphers.save(cipher.clone());
    let attachments = store.attachments.find_by_owner(&cipher.uuid);
    Ok((cipher, attachments))
}

/// The same as [`put_cipher`]: clients that cannot send a replacement post
/// it.
pub fn post_cipher(
    store: &mut Store,
    user_uuid: &String,
    uuid: &String,
    data: CipherData,
) -> (result: Result<(Cipher, Vec<Attachment>), Error>)
    ensures
        final(store).folders@ == old(store).folders@,
        final(store).attachments@ == old(store).attachments@,
        match result {
            Ok(entry) => {
                &&& put_error(old(store).ciphers@, old(store).folders@, user_uuid@, uuid@, data@)
                    is None
                &&& final(store).ciphers@ == with_row::<Cipher>(
                    old(store).ciphers@,
                    replaced(row_at::<Cipher>(old(store).ciphers@, uuid@)->Some_0, data@),
                )
                &&& is_entry(
                    old(store).attachments@,
                    replaced(row_at::<Cipher>(old(store).ciphers@, uuid@)->Some_0, data@),
                    entry,
                )
            },
            Err(e) => {
                &&& put_error(old(store).ciphers@, old(store).folders@, user_uuid@, uuid@, data@)
                    == Some(e)
                &&& final(store).ciphers@ == old(store).ciphers@
            },
        },
{
    put_cipher(store, user_uuid, uuid, data)
}

/// Deletes a cipher of the user: first the rows of all its attachments, then
/// its own row. Returns where the files of the attachments are kept, for the
/// files to be removed; a file that is already gone is no failure.
pub fn delete_cipher(store: &mut Store, user_uuid: &String, uuid: &String) -> (result: Result<
    Vec<BlobKey>,
    Error,
>)
    ensures
        final(store).folders@ == old(store).folders@,
        match result {
            Ok(keys) => {
                &&& access_error(old(store).ciphers@, user_uuid@, uuid@) is None
                &&& key_models(keys@) == blob_keys(
                    owned_by::<Attachment>(old(store).attachments@, uuid@),
                )
                &&& final(store).attachments@ == without_owner::<Attachment>(
                    old(store).attachments@,
                    uuid@,
                )
                &&& final(store).ciphers@ == without_key::<Cipher>(old(store).ciphers@, uuid@)
            },
            Err(e) => {
                &&& access_error(old(store).ciphers@, user_uuid@, uuid@) == Some(e)
                &&& final(store).attachments@ == old(store).attachments@
                &&& final(store).ciphers@ == old(store).ciphers@
            },
        },
{
    let cipher = match owned_cipher(store, user_uuid, uuid) {
        Ok(cipher) => cipher,
        Err(e) => {
            return Err(e);
        },
    };
    proof {
        crate::table::lemma_row_at_key::<Cipher>(store.ciphers@, uuid@);
    }
    let attachments = store.attachments.find_by_owner(&cipher.uuid);
    let keys = keys_of(&attachments);
    store.attachments.delete_by_owner(&cipher.uuid);
    store.ciphers.delete(&cipher.uuid);
    Ok(keys)
}

/// The same as [`delete_cipher`]: clients that cannot send a deletion post
/// it.
pub fn delete_cipher_post(store: &mut Store, user_uuid: &String, uuid: &String) -> (result: Result<
    Vec<BlobKey>,
    Error,
>)
    ensures
        final(store).folders@ == old(store).folders@,
        match result {
            Ok(keys) => {
                &&& access_error(old(store).ciphers@, user_uuid@, uuid@) is None
                &&& key_models(keys@) == blob_keys(
                    owned_by::<Attachment>(old(store).attachments@, uuid@),
                )
                &&& final(store).attachments@ == without_owner::<Attachment>(
                    old(store).attachments@,
                    uuid@,
                )
                &&& final(store).ciphers@ == without_key::<Cipher>(old(store).ciphers@, uuid@)
            },
            Err(e) => {
                &&& access_error(old(store).ciphers@, user_uuid@, uuid@) == Some(e)
                &&& final(store).attachments@ == old(store).attachments@
                &&& final(store).ciphers@ == old(store).ciphers@
            },
        },
{
    delete_cipher(store, user_uuid, uuid)
}

/// Where the files of all attachments of the given ciphers are kept: cipher
/// by cipher, and for each cipher in the order of the attachment table.
pub open spec fn files_of(attachments: Seq<AttachmentModel>, ciphers: Seq<CipherModel>) -> Seq<
    BlobKeyModel,
>
    decreases ciphers.len(),
{
    if ciphers.len() == 0 {
        Seq::empty()
    } else {
        files_of(attachments, ciphers.drop_last()) + blob_keys(
            owned_by::<Attachment>(attachments, ciphers.last().uuid),
        )
    }
}

/// The attachments that are left when those of the given ciphers are deleted.
pub open spec fn without_attachments_of(
    attachments: Seq<AttachmentModel>,
    ciphers: Seq<CipherModel>,
) -> Seq<AttachmentModel>
    decreases ciphers.len(),
{
    if ciphers.len() == 0 {
        attachments
    } else {
        without_owner::<Attachment>(
            without_attachments_of(attachments, ciphers.drop_last()),
            ciphers.last().uuid,
        )
    }
}

/// Deletes everything the user has: the attachments of each of the user's
/// ciphers, the ciphers, and the folders. `password_valid` says whether the
/// password given to confirm the purge was found right; where it was not,
/// nothing is deleted. Returns where the files of the deleted attachments are
/// kept, for the files to be removed.
pub fn delete_all(store: &mut Store, user_uuid: &String, password_valid: bool) -> (result: Result<
    Vec<BlobKey>,
    Error,
>)
    ensures
        match result {
            Ok(keys) => {
                &&& password_valid
                &&& key_models(keys@) == files_of(
                    old(store).attachments@,
                    owned_by::<Cipher>(old(store).ciphers@, user_uuid@),
                )
                &&& final(store).attachments@ == without_attachments_of(
                    old(store).attachments@,
                    owned_by::<Cipher>(old(store).ciphers@, user_uuid@),
                )
                &&& final(store).ciphers@ == without_owner::<Cipher>(
                    old(store).ciphers@,
                    user_uuid@,
                )
                &&& final(store).folders@ == without_owner::<Folder>(
                    old(store).folders@,
                    user_uuid@,
                )
            },
            Err(e) => {
                &&& !password_valid
                &&& e == Error::InvalidPassword
                &&& final(store).attachments@ == old(store).attachments@
                &&& final(store).ciphers@ == old(store).ciphers@
                &&& final(store).folders@ == old(store).folders@
            },
        },
{
    if !password_valid {
        return Err(Error::InvalidPassword);
    }
    let ciphers = store.ciphers.find_by_owner(user_uuid);
    let ghost owned = owned_by::<Cipher>(store.ciphers@, user_uuid@);
    let mut keys: Vec<BlobKey> = Vec::new();
    let mut i: usize = 0;
    assert(key_models(keys@) =~= files_of(store.attachments@, owned.take(0)));
    while i < ciphers.len()
        invariant
            i <= ciphers.len(),
            views::<Cipher>(ciphers@) == owned,
            store.attachments@ == old(store).attachments@,
            key_models(keys@) == files_of(store.attachments@, owned.take(i as int)),
        decreases ciphers.len() - i,
    {
        let attachments = store.attachments.find_by_owner(&ciphers[i].uuid);
        let mut more = keys_of(&attachments);
        let ghost before = key_models(keys@);
        let ghost added = key_models(more@);
        keys.append(&mut more);
        proof {
            assert(owned.take(i + 1).drop_last() =~= owned.take(i as int));
            assert(owned.take(i + 1).last() == ciphers@[i as int]@);
            assert(key_models(keys@) =~= before + added);
        }
        i += 1;
    }
    proof {
        assert(owned.take(ciphers.len() as int) =~= owned);
    }
    let mut j: usize = 0;
    while j < ciphers.len()
        invariant
            j <= ciphers.len(),
            views::<Cipher>(ciphers@) == owned,
            store.ciphers@ == old(store).ciphers@,
            store.folders@ == old(store).folders@,
            store.attachments@ == without_attachments_of(
                old(store).attachments@,
                owned.take(j as int),
            ),
        decreases ciphers.len() - j,
    {
        proof {
            assert(owned.take(j + 1).drop_last() =~= owned.take(j as int));
            assert(owned.take(j + 1).last() == ciphers@[j as int]@);
        }
        store.attachments.delete_by_owner(&ciphers[j].uuid);
        j += 1;
    }
    proof {
        assert(owned.take(ciphers.len() as int) =~= owned);
    }
    store.ciphers.delete_by_owner(user_uuid);
    store.folders.delete_by_owner(user_uuid);
    Ok(keys)
}

} // verus!
