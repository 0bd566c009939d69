//! What holds of the vault's operations, whatever the inputs.
//!
//! Each law is stated over the functions in which the operations' own
//! contracts are written, so that it speaks of what the operations do.

use crate::attachments::{
    blob_keys, recorded_size, with_parts, UploadedPartModel,
};
use crate::casing::{normalized_into, upcased};
use crate::ciphers::{created, without_attachments_of};
use crate::error::{Error, ErrorKind};
use crate::json::{has_key, json_text, key_set, lemma_with_entry_keys, JsonModel};
use crate::merge::{
    base_entries, envelope, folder_error, merge_error, merged, CipherDataModel,
};
use crate::model::{Attachment, AttachmentModel, Cipher, CipherModel, Folder, FolderModel, Row};
use crate::store::access_error;
use crate::table::{
    has_row, lemma_saved_row, lemma_selected, owned_by, row_at, with_row, without_key,
    without_owner,
};
use vstd::prelude::*;

verus! {

/// The canonical names of the fields of a typed payload.
pub open spec fn canonical_keys(entries: Seq<(Seq<char>, JsonModel)>) -> Set<Seq<char>> {
    Set::new(
        |k: Seq<char>|
            exists|i: int| 0 <= i < entries.len() && upcased((#[trigger] entries[i]).0) == k,
    )
}

/// The keys that every stored payload has.
pub open spec fn base_keys() -> Set<Seq<char>> {
    set!["Name"@, "Notes"@, "Fields"@]
}

/// A cipher of a valid type whose matching payload is an object, and whose
/// folder reference, if any, is good, is merged without failure; and the keys
/// of the document it stores are exactly `Name`, `Notes` and `Fields`
/// together with the canonical names of the payload's fields. What a created
/// cipher holds as its stored payload is the text of that document.
pub proof fn law_stored_payload_keys(
    folders: Seq<FolderModel>,
    user: Seq<char>,
    uuid: Seq<char>,
    data: CipherDataModel,
)
    requires
        1 <= data.type_ <= 4,
        data.payload() is Some,
        data.payload()->Some_0 is Object,
        folder_error(folders, user, data.folder_id) is None,
    ensures
        merge_error(folders, user, data) is None,
        created(uuid, user, data).data == json_text(envelope(data, data.payload()->Some_0)),
        key_set(envelope(data, data.payload()->Some_0).entries()) == base_keys().union(
            canonical_keys(data.payload()->Some_0.entries()),
        ),
{
    let base = base_entries(data.name, data.notes, data.fields);
    assert(key_set(base) =~= base_keys()) by {
        assert forall|k: Seq<char>| has_key(base, k) <==> base_keys().contains(k) by {
            if has_key(base, k) {
                let i = choose|i: int| 0 <= i < base.len() && (#[trigger] base[i]).0 == k;
                assert(i == 0 || i == 1 || i == 2);
            }
            if k == "Name"@ {
                assert(base[0].0 == k);
            }
            if k == "Notes"@ {
                assert(base[1].0 == k);
            }
            if k == "Fields"@ {
                assert(base[2].0 == k);
            }
        }
    }
    lemma_normalized_keys(base, data.payload()->Some_0.entries());
}

/// Copying fields into an object adds their canonical names to its keys and
/// takes none away.
pub proof fn lemma_normalized_keys(
    to: Seq<(Seq<char>, JsonModel)>,
    from: Seq<(Seq<char>, JsonModel)>,
)
    ensures
        key_set(normalized_into(to, from)) == key_set(to).union(canonical_keys(from)),
    decreases from.len(),
{
    if from.len() == 0 {
        assert(canonical_keys(from) =~= Set::<Seq<char>>::empty());
        assert(key_set(to).union(canonical_keys(from)) =~= key_set(to));
    } else {
        let rest = from.drop_last();
        let last = from.last();
        lemma_normalized_keys(to, rest);
        lemma_with_entry_keys(normalized_into(to, rest), upcased(last.0), last.1);
        assert(canonical_keys(from) =~= canonical_keys(rest).insert(upcased(last.0))) by {
            assert forall|k: Seq<char>| canonical_keys(from).contains(k) <==> (canonical_keys(
                rest,
            ).contains(k) || k == upcased(last.0)) by {
                if canonical_keys(from).contains(k) {
                    let i = choose|i: int|
                        0 <= i < from.len() && upcased((#[trigger] from[i]).0) == k;
                    if i < rest.len() {
                        assert(upcased(rest[i].0) == k);
                    }
                }
                if canonical_keys(rest).contains(k) {
                    let i = choose|i: int|
                        0 <= i < rest.len() && upcased((#[trigger] rest[i]).0) == k;
                    assert(upcased(from[i].0) == k);
                }
                if k == upcased(last.0) {
                    assert(upcased(from[from.len() - 1].0) == k);
                }
            }
        }
        assert(key_set(normalized_into(to, from)) =~= key_set(to).union(canonical_keys(from)));
    }
}

/// A type discriminant other than 1, 2, 3, 4 makes the merge fail as an
/// invalid input, whatever else is submitted, once the folder reference is
/// good. (A bad folder reference is reported first.) The operations that
/// merge say in their own contracts that they fail as the merge does and then
/// leave the store as it was.
pub proof fn law_invalid_type(folders: Seq<FolderModel>, user: Seq<char>, data: CipherDataModel)
    requires
        !(1 <= data.type_ <= 4),
        folder_error(folders, user, data.folder_id) is None,
    ensures
        merge_error(folders, user, data) == Some(Error::InvalidType),
        Error::InvalidType.kind_of() == ErrorKind::InvalidInput,
{
}

/// A valid type discriminant without the payload that goes with it makes the
/// merge fail as an invalid input, once the folder reference is good. (A bad
/// folder reference is reported first.)
pub proof fn law_missing_payload(folders: Seq<FolderModel>, user: Seq<char>, data: CipherDataModel)
    requires
        1 <= data.type_ <= 4,
        data.payload() is None,
        folder_error(folders, user, data.folder_id) is None,
    ensures
        merge_error(folders, user, data) == Some(Error::DataMissing),
        Error::DataMissing.kind_of() == ErrorKind::InvalidInput,
{
}

/// A reference to a folder of another user makes the merge fail as not
/// owned, and a reference to a folder that is not there as not found,
/// whatever else is submitted.
pub proof fn law_folder_reference(
    folders: Seq<FolderModel>,
    user: Seq<char>,
    data: CipherDataModel,
)
    requires
        data.folder_id is Some,
    ensures
        row_at::<Folder>(folders, data.folder_id->Some_0) is None ==> merge_error(
            folders,
            user,
            data,
        ) == Some(Error::FolderNotFound),
        row_at::<Folder>(folders, data.folder_id->Some_0) matches Some(folder) && folder.user_uuid
            != user ==> merge_error(folders, user, data) == Some(Error::FolderNotOwned),
        Error::FolderNotFound.kind_of() == ErrorKind::NotFound,
        Error::FolderNotOwned.kind_of() == ErrorKind::NotOwned,
{
}

/// A cipher that was saved is read back by its owner as it was saved, and
/// saving it changes what is stored under no other id.
pub proof fn law_saved_cipher_is_read(
    ciphers: Seq<CipherModel>,
    cipher: CipherModel,
    other: Seq<char>,
)
    ensures
        access_error(with_row::<Cipher>(ciphers, cipher), cipher.user_uuid, cipher.uuid) is None,
        row_at::<Cipher>(with_row::<Cipher>(ciphers, cipher), cipher.uuid) == Some(cipher),
        other != cipher.uuid ==> row_at::<Cipher>(with_row::<Cipher>(ciphers, cipher), other)
            == row_at::<Cipher>(ciphers, other),
{
    lemma_saved_row::<Cipher>(ciphers, cipher, other);
}

/// Under an id that is not in use, a saved cipher is one row more, the last,
/// and the rows before it stay; and a cipher whose id no attachment names has
/// no attachments.
pub proof fn law_new_id_adds_one_row(
    ciphers: Seq<CipherModel>,
    attachments: Seq<AttachmentModel>,
    cipher: CipherModel,
)
    requires
        row_at::<Cipher>(ciphers, cipher.uuid) is None,
    ensures
        with_row::<Cipher>(ciphers, cipher) == ciphers.push(cipher),
        (forall|i: int| 0 <= i < attachments.len() ==> (#[trigger] attachments[i]).cipher_uuid
            != cipher.uuid) ==> owned_by::<Attachment>(attachments, cipher.uuid).len() == 0,
{
    lemma_selected::<Attachment>(attachments, cipher.uuid);
    let owned = owned_by::<Attachment>(attachments, cipher.uuid);
    if (forall|i: int| 0 <= i < attachments.len() ==> (#[trigger] attachments[i]).cipher_uuid
        != cipher.uuid) && owned.len() > 0 {
        let x = owned[0];
        assert(attachments.contains(x));
        let k = choose|k: int| 0 <= k < attachments.len() && attachments[k] == x;
        assert(attachments[k].cipher_uuid != cipher.uuid);
    }
}

/// Of two parts of an upload of which the save of the first failed and that
/// of the second succeeded, the second alone is recorded: as one row, under
/// its generated name, with the client's name and the size written, which is
/// the number of bytes where that fits.
pub proof fn law_failed_part_is_passed_over(
    rows: Seq<AttachmentModel>,
    cipher_uuid: Seq<char>,
    first: UploadedPartModel,
    second: UploadedPartModel,
)
    requires
        first.saved is None,
        second.saved is Some,
    ensures
        with_parts(rows, cipher_uuid, seq![first, second]) == with_row::<Attachment>(
            rows,
            AttachmentModel {
                id: second.id,
                cipher_uuid,
                file_name: second.file_name,
                file_size: recorded_size(second.saved->Some_0),
            },
        ),
        second.saved->Some_0 <= i32::MAX ==> recorded_size(second.saved->Some_0)
            == second.saved->Some_0,
{
    let both = seq![first, second];
    assert(both.drop_last() =~= seq![first]);
    assert(both.last() == second);
    assert(seq![first].drop_last() =~= Seq::<UploadedPartModel>::empty());
    assert(seq![first].last() == first);
    assert(with_parts(rows, cipher_uuid, seq![first].drop_last()) == rows);
    assert(with_parts(rows, cipher_uuid, seq![first]) == rows);
    if second.saved->Some_0 <= i32::MAX {
        crate::attachments::lemma_recorded_size(second.saved->Some_0);
    }
}

/// A merge that succeeds leaves a cipher whose type is the submitted one and
/// whose stored payload is built from the payload that goes with that type:
/// the stored payload goes with the type. Notes and custom fields are those
/// submitted, and none where none were.
pub proof fn law_payload_goes_with_type(
    folders: Seq<FolderModel>,
    user: Seq<char>,
    cipher: CipherModel,
    data: CipherDataModel,
)
    requires
        merge_error(folders, user, data) is None,
    ensures
        1 <= merged(cipher, data).type_ <= 4,
        merged(cipher, data).type_ == data.type_,
        data.payload() matches Some(payload) && payload is Object && merged(cipher, data).data
            == json_text(envelope(data, payload)),
        merged(cipher, data).notes == data.notes,
        data.fields is None ==> merged(cipher, data).fields is None,
        merged(cipher, data).uuid == cipher.uuid,
        merged(cipher, data).user_uuid == cipher.user_uuid,
{
}

/// Nothing is stored under a key that was deleted, and no row of an owner is
/// left when the owner's rows were deleted.
pub proof fn law_deleted_rows_are_gone<R: Row>(rows: Seq<R::V>, text: Seq<char>)
    ensures
        row_at::<R>(without_key::<R>(rows, text), text) is None,
        owned_by::<R>(without_owner::<R>(rows, text), text).len() == 0,
{
    lemma_selected::<R>(rows, text);
    let kept = without_key::<R>(rows, text);
    if has_row::<R>(kept, text) {
        let i = choose|i: int| 0 <= i < kept.len() && R::key(#[trigger] kept[i]) == text;
        assert(R::key(kept[i]) != text);
    }
    let left = without_owner::<R>(rows, text);
    lemma_selected::<R>(left, text);
    let found = owned_by::<R>(left, text);
    if found.len() > 0 {
        let x = found[0];
        assert(left.contains(x));
        let k = choose|k: int| 0 <= k < left.len() && left[k] == x;
        assert(R::owner(left[k]) != text);
    }
}

/// After a cipher is deleted it cannot be read, by anyone: reading it fails
/// as not found. None of its attachments is left, and for each attachment it
/// had, the place of its file was handed out.
pub proof fn law_deleted_cipher_is_gone(
    ciphers: Seq<CipherModel>,
    attachments: Seq<AttachmentModel>,
    user: Seq<char>,
    uuid: Seq<char>,
)
    ensures
        access_error(without_key::<Cipher>(ciphers, uuid), user, uuid) == Some(
            Error::CipherNotFound,
        ),
        Error::CipherNotFound.kind_of() == ErrorKind::NotFound,
        owned_by::<Attachment>(without_owner::<Attachment>(attachments, uuid), uuid).len() == 0,
        blob_keys(owned_by::<Attachment>(attachments, uuid)).len() == owned_by::<Attachment>(
            attachments,
            uuid,
        ).len(),
{
    law_deleted_rows_are_gone::<Cipher>(ciphers, uuid);
    law_deleted_rows_are_gone::<Attachment>(attachments, uuid);
}

/// Every attachment that is left after those of some ciphers were deleted was
/// there before and belongs to none of these ciphers.
pub proof fn lemma_attachments_left(attachments: Seq<AttachmentModel>, ciphers: Seq<CipherModel>)
    ensures
        forall|i: int, j: int|
            0 <= i < without_attachments_of(attachments, ciphers).len() && 0 <= j < ciphers.len()
                ==> (#[trigger] without_attachments_of(attachments, ciphers)[i]).cipher_uuid != (
            #[trigger] ciphers[j]).uuid,
        forall|i: int|
            0 <= i < without_attachments_of(attachments, ciphers).len() ==> attachments.contains(
                #[trigger] without_attachments_of(attachments, ciphers)[i],
            ),
    decreases ciphers.len(),
{
    if ciphers.len() > 0 {
        let rest = ciphers.drop_last();
        let last = ciphers.last();
        lemma_attachments_left(attachments, rest);
        let before = without_attachments_of(attachments, rest);
        let after = without_attachments_of(attachments, ciphers);
        lemma_selected::<Attachment>(before, last.uuid);
        assert forall|i: int| 0 <= i < after.len() implies attachments.contains(
            #[trigger] after[i],
        ) && (forall|j: int| 0 <= j < ciphers.len() ==> after[i].cipher_uuid != (
        #[trigger] ciphers[j]).uuid) by {
            let x = after[i];
            assert(before.contains(x));
            let k = choose|k: int| 0 <= k < before.len() && before[k] == x;
            assert(attachments.contains(before[k]));
            assert forall|j: int| 0 <= j < ciphers.len() implies x.cipher_uuid != (
            #[trigger] ciphers[j]).uuid by {
                if j < rest.len() {
                    assert(before[k].cipher_uuid != rest[j].uuid);
                }
            }
        }
    }
}

/// After a purge the user has nothing: no cipher, no folder, and no
/// attachment of any cipher that the user had. The failure of a purge with a
/// wrong password, which `delete_all` states, counts as unauthorized.
pub proof fn law_purge_leaves_nothing(
    ciphers: Seq<CipherModel>,
    folders: Seq<FolderModel>,
    attachments: Seq<AttachmentModel>,
    user: Seq<char>,
)
    ensures
        owned_by::<Cipher>(without_owner::<Cipher>(ciphers, user), user).len() == 0,
        owned_by::<Folder>(without_owner::<Folder>(folders, user), user).len() == 0,
        forall|i: int, j: int|
            0 <= i < without_attachments_of(
                attachments,
                owned_by::<Cipher>(ciphers, user),
            ).len() && 0 <= j < ciphers.len() && (#[trigger] ciphers[j]).user_uuid == user ==> (
            #[trigger] without_attachments_of(
                attachments,
                owned_by::<Cipher>(ciphers, user),
            )[i]).cipher_uuid != ciphers[j].uuid,
        Error::InvalidPassword.kind_of() == ErrorKind::Unauthorized,
{
    law_deleted_rows_are_gone::<Cipher>(ciphers, user);
    law_deleted_rows_are_gone::<Folder>(folders, user);
    let owned = owned_by::<Cipher>(ciphers, user);
    let left = without_attachments_of(attachments, owned);
    lemma_attachments_left(attachments, owned);
    lemma_selected::<Cipher>(ciphers, user);
    assert forall|i: int, j: int|
        0 <= i < left.len() && 0 <= j < ciphers.len() && (#[trigger] ciphers[j]).user_uuid
            == user implies (#[trigger] left[i]).cipher_uuid != ciphers[j].uuid by {
        assert(owned.contains(ciphers[j]));
        let k = choose|k: int| 0 <= k < owned.len() && owned[k] == ciphers[j];
        assert(left[i].cipher_uuid != owned[k].uuid);
    }
}

} // verus!
