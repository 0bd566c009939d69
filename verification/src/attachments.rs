//! The attachment store: binds a saved file to a row of the vault.
//!
//! The file itself is kept elsewhere, under the cipher's id and a generated
//! name. This module names the file, records a row once the file is saved,
//! and says which files are to be removed when rows are deleted.

use crate::error::Error;
use crate::model::{Attachment, AttachmentModel, Cipher, CipherModel};
use crate::store::{access_error, owned_cipher, Store};
use crate::table::{owned_by, row_at, views, with_row, without_key};
use vstd::prelude::*;

verus! {

/// The digit of a value below sixteen, in lower-case hexadecimal.
pub open spec fn hex_digit(n: int) -> char {
    "0123456789abcdef"@[n]
}

/// Bytes in lower-case hexadecimal: two digits for each byte, the high half
/// first.
pub open spec fn hex_lower(bytes: Seq<u8>) -> Seq<char> {
    Seq::new(
        2 * bytes.len(),
        |i: int|
            if i % 2 == 0 {
                hex_digit(bytes[i / 2] as int / 16)
            } else {
                hex_digit(bytes[i / 2] as int % 16)
            },
    )
}

/// Calls `data_encoding::HEXLOWER.encode`: base 16 over the symbols
/// `0123456789abcdef`, most significant half first, without padding or line
/// wrapping. The crate refuses inputs longer than `usize::MAX / 512`.
#[verifier::external_body]
fn hex_encode(bytes: &[u8]) -> (text: String)
    requires
        bytes@.len() <= usize::MAX / 512,
    ensures
        text@ == hex_lower(bytes@),
{
    data_encoding::HEXLOWER.encode(bytes)
}

/// The name under which a new attachment is kept: ten random bytes in
/// lower-case hexadecimal.
pub fn new_attachment_id(random: &[u8; 10]) -> (id: String)
    ensures
        id@ == hex_lower(random@),
        id@.len() == 20,
{
    hex_encode(random.as_slice())
}

/// A character with the ASCII capitals folded onto the small letters, as a
/// code point.
pub open spec fn folded(c: char) -> int {
    if 65 <= c as int <= 90 {
        c as int + 32
    } else {
        c as int
    }
}

/// Whether two names are the same but for the case of ASCII letters.
pub open spec fn same_name(a: Seq<char>, b: Seq<char>) -> bool {
    &&& a.len() == b.len()
    &&& forall|i: int| 0 <= i < a.len() ==> folded(#[trigger] a[i]) == folded(b[i])
}

/// Whether `i` is the position of the first parameter named `boundary`.
pub open spec fn is_boundary_at(params: Seq<(String, String)>, i: int) -> bool {
    &&& 0 <= i < params.len()
    &&& same_name(params[i].0@, "boundary"@)
    &&& forall|j: int| 0 <= j < i ==> !same_name((#[trigger] params[j]).0@, "boundary"@)
}

/// Whether some parameter is named `boundary`.
pub open spec fn has_boundary(params: Seq<(String, String)>) -> bool {
    exists|i: int| 0 <= i < params.len() && same_name((#[trigger] params[i]).0@, "boundary"@)
}

fn fold(c: char) -> (n: u32)
    ensures
        n == folded(c),
{
    let n = c as u32;
    if 65 <= n && n <= 90 {
        n + 32
    } else {
        n
    }
}

/// Whether two names are the same but for the case of ASCII letters.
pub fn names_match(a: &str, b: &str) -> (same: bool)
    ensures
        same == same_name(a@, b@),
{
    let n = a.unicode_len();
    if n != b.unicode_len() {
        return false;
    }
    let mut i: usize = 0;
    while i < n
        invariant
            i <= n,
            n == a@.len(),
            n == b@.len(),
            forall|j: int| 0 <= j < i ==> folded(#[trigger] a@[j]) == folded(b@[j]),
        decreases n - i,
    {
        if fold(a.get_char(i)) != fold(b.get_char(i)) {
            return false;
        }
        i += 1;
    }
    true
}

/// The boundary that a content type names: the value of its first parameter
/// named `boundary`, in whatever case, unless that value is empty.
pub open spec fn boundary_of(params: Seq<(String, String)>) -> Option<Seq<char>> {
    if has_boundary(params) {
        let value = params[choose|i: int| is_boundary_at(params, i)].1@;
        if value.len() > 0 {
            Some(value)
        } else {
            None
        }
    } else {
        None
    }
}

/// The first parameter named `boundary` is the only position that
/// `is_boundary_at` accepts.
pub proof fn lemma_boundary_at(params: Seq<(String, String)>, i: int)
    requires
        is_boundary_at(params, i),
    ensures
        has_boundary(params),
        (choose|j: int| is_boundary_at(params, j)) == i,
{
    let c = choose|j: int| is_boundary_at(params, j);
    assert(is_boundary_at(params, c));
    if c < i {
        assert(!same_name(params[c].0@, "boundary"@));
    }
    if i < c {
        assert(!same_name(params[i].0@, "boundary"@));
    }
}

/// The boundary between the parts of an upload, taken from the parameters of
/// the request's content type. An upload whose content type names no
/// boundary, or an empty one, is refused.
pub fn upload_boundary(params: &Vec<(String, String)>) -> (result: Result<String, Error>)
    ensures
        match result {
            Ok(boundary) => boundary_of(params@) == Some(boundary@),
            Err(e) => boundary_of(params@) is None && e == Error::InvalidMultipart,
        },
{
    let mut i: usize = 0;
    while i < params.len()
        invariant
            i <= params.len(),
            forall|j: int| 0 <= j < i ==> !same_name((#[trigger] params@[j]).0@, "boundary"@),
        decreases params.len() - i,
    {
        if names_match(params[i].0.as_str(), "boundary") {
            proof {
                lemma_boundary_at(params@, i as int);
            }
            if params[i].1.as_str().unicode_len() > 0 {
                return Ok(params[i].1.clone());
            } else {
                return Err(Error::InvalidMultipart);
            }
        }
        i += 1;
    }
    Err(Error::InvalidMultipart)
}

/// Why an upload may not begin, if so. The right to work on the cipher is
/// judged first, then the boundary.
pub open spec fn upload_error(
    ciphers: Seq<CipherModel>,
    user: Seq<char>,
    uuid: Seq<char>,
    params: Seq<(String, String)>,
) -> Option<Error> {
    match access_error(ciphers, user, uuid) {
        Some(e) => Some(e),
        None => if boundary_of(params) is None {
            Some(Error::InvalidMultipart)
        } else {
            None
        },
    }
}

/// Decides whether an upload to a cipher may begin, before any of its parts
/// is read or saved, and gives the boundary between the parts. The store is
/// only read.
pub fn begin_upload(
    store: &Store,
    user_uuid: &String,
    uuid: &String,
    params: &Vec<(String, String)>,
) -> (result: Result<String, Error>)
    ensures
        match result {
            Ok(boundary) => upload_error(store.ciphers@, user_uuid@, uuid@, params@) is None
                && boundary_of(params@) == Some(boundary@),
            Err(e) => upload_error(store.ciphers@, user_uuid@, uuid@, params@) == Some(e),
        },
{
    match owned_cipher(store, user_uuid, uuid) {
        Ok(_) => upload_boundary(params),
        Err(e) => Err(e),
    }
}

/// Where a file is kept: under the cipher's id and the attachment's id.
#[derive(Debug, PartialEq, Eq)]
pub struct BlobKey {
    pub cipher_uuid: String,
    pub id: String,
}

/// The value of a [`BlobKey`].
pub struct BlobKeyModel {
    pub cipher_uuid: Seq<char>,
    pub id: Seq<char>,
}

impl View for BlobKey {
    type V = BlobKeyModel;

    open spec fn view(&self) -> BlobKeyModel {
        BlobKeyModel { cipher_uuid: self.cipher_uuid@, id: self.id@ }
    }
}

/// The values of a list of keys, in order.
pub open spec fn key_models(keys: Seq<BlobKey>) -> Seq<BlobKeyModel> {
    Seq::new(keys.len(), |i: int| keys[i]@)
}

/// Where the files of the given attachments are kept, in order.
pub open spec fn blob_keys(rows: Seq<AttachmentModel>) -> Seq<BlobKeyModel> {
    Seq::new(rows.len(), |i: int| BlobKeyModel { cipher_uuid: rows[i].cipher_uuid, id: rows[i].id })
}

/// One file part of an upload after the attempt to save it: the generated
/// name, the name the client gave, and the number of bytes written, or `None`
/// where the save failed. Generated names are not held against the names in
/// use: a row that has the name already is replaced.
#[derive(Debug, PartialEq, Eq)]
pub struct UploadedPart {
    pub id: String,
    pub file_name: String,
    pub saved: Option<u64>,
}

/// The value of an [`UploadedPart`].
pub struct UploadedPartModel {
    pub id: Seq<char>,
    pub file_name: Seq<char>,
    pub saved: Option<u64>,
}

impl View for UploadedPart {
    type V = UploadedPartModel;

    open spec fn view(&self) -> UploadedPartModel {
        UploadedPartModel { id: self.id@, file_name: self.file_name@, saved: self.saved }
    }
}

/// The values of a list of parts, in order.
pub open spec fn part_models(parts: Seq<UploadedPart>) -> Seq<UploadedPartModel> {
    Seq::new(parts.len(), |i: int| parts[i]@)
}

/// The size recorded for a file of `size` bytes: its low 32 bits as a signed
/// number.
pub open spec fn recorded_size(size: u64) -> i32 {
    size as i32
}

/// A size that fits is recorded as it is.
pub proof fn lemma_recorded_size(size: u64)
    requires
        size <= i32::MAX,
    ensures
        recorded_size(size) == size,
{
    assert(size <= 0x7fff_ffff ==> (size as i32) as u64 == size) by (bit_vector);
}

/// The attachment rows after one part is recorded: a part that was saved
/// gets a row, a part whose save failed is passed over.
pub open spec fn with_part(
    rows: Seq<AttachmentModel>,
    cipher_uuid: Seq<char>,
    part: UploadedPartModel,
) -> Seq<AttachmentModel> {
    match part.saved {
        Some(size) => with_row::<Attachment>(
            rows,
            AttachmentModel {
                id: part.id,
                cipher_uuid,
                file_name: part.file_name,
                file_size: recorded_size(size),
            },
        ),
        None => rows,
    }
}

/// The attachment rows after the parts of one upload are recorded, in order.
pub open spec fn with_parts(
    rows: Seq<AttachmentModel>,
    cipher_uuid: Seq<char>,
    parts: Seq<UploadedPartModel>,
) -> Seq<AttachmentModel>
    decreases parts.len(),
{
    if parts.len() == 0 {
        rows
    } else {
        with_part(with_parts(rows, cipher_uuid, parts.drop_last()), cipher_uuid, parts.last())
    }
}

/// Records one file part of an upload. A part that was saved gets an
/// attachment row with the generated name, the client's name and the size
/// written; a part whose save failed leaves the store as it is.
pub fn record_part(store: &mut Store, cipher_uuid: &String, part: &UploadedPart)
    ensures
        final(store).attachments@ == with_part(old(store).attachments@, cipher_uuid@, part@),
        final(store).ciphers@ == old(store).ciphers@,
        final(store).folders@ == old(store).folders@,
{
    match part.saved {
        Some(size) => {
            let file_size = #[verifier::truncate]
            (size as i32);
            let attachment = Attachment::new(
                part.id.clone(),
                cipher_uuid.clone(),
                part.file_name.clone(),
                file_size,
            );
            store.attachments.save(attachment);
        },
        None => {},
    }
}

/// Records the file parts of one upload to a cipher, in order, and returns
/// the cipher with the attachments it then has. The upload is refused where
/// the cipher does not exist or belongs to another user. A part whose save
/// failed fails nothing: the others are recorded all the same.
pub fn post_attachment(
    store: &mut Store,
    user_uuid: &String,
    uuid: &String,
    parts: &Vec<UploadedPart>,
) -> (result: Result<(Cipher, Vec<Attachment>), Error>)
    ensures
        final(store).ciphers@ == old(store).ciphers@,
        final(store).folders@ == old(store).folders@,
        match result {
            Ok((cipher, attachments)) => {
                &&& access_error(old(store).ciphers@, user_uuid@, uuid@) is None
                &&& row_at::<Cipher>(old(store).ciphers@, uuid@) == Some(cipher@)
                &&& final(store).attachments@ == with_parts(
                    old(store).attachments@,
                    cipher@.uuid,
                    part_models(parts@),
                )
                &&& views::<Attachment>(attachments@) == owned_by::<Attachment>(
                    final(store).attachments@,
                    cipher@.uuid,
                )
            },
            Err(e) => {
                &&& access_error(old(store).ciphers@, user_uuid@, uuid@) == Some(e)
                &&& final(store).attachments@ == old(store).attachments@
            },
        },
{
    let cipher = match owned_cipher(store, user_uuid, uuid) {
        Ok(cipher) => cipher,
        Err(e) => {
            return Err(e);
        },
    };
    let ghost all = part_models(parts@);
    let mut i: usize = 0;
    while i < parts.len()
        invariant
            i <= parts.len(),
            all == part_models(parts@),
            store.attachments@ == with_parts(
                old(store).attachments@,
                cipher@.uuid,
                all.take(i as int),
            ),
            store.ciphers@ == old(store).ciphers@,
            store.folders@ == old(store).folders@,
        decreases parts.len() - i,
    {
        proof {
            assert(all.take(i + 1).drop_last() =~= all.take(i as int));
            assert(all.take(i + 1).last() == parts@[i as int]@);
        }
        record_part(store, &cipher.uuid, &parts[i]);
        i += 1;
    }
    proof {
        assert(all.take(parts.len() as int) =~= all);
    }
    let attachments = store.attachments.find_by_owner(&cipher.uuid);
    Ok((cipher, attachments))
}

/// Where the files of the given attachments are kept.
pub fn keys_of(rows: &Vec<Attachment>) -> (keys: Vec<BlobKey>)
    ensures
        key_models(keys@) == blob_keys(views::<Attachment>(rows@)),
{
    let mut keys: Vec<BlobKey> = Vec::new();
    let mut i: usize = 0;
    while i < rows.len()
        invariant
            i <= rows.len(),
            keys@.len() == i,
            forall|j: int|
                0 <= j < i ==> (#[trigger] keys@[j])@ == (BlobKeyModel {
                    cipher_uuid: rows@[j]@.cipher_uuid,
                    id: rows@[j]@.id,
                }),
        decreases rows.len() - i,
    {
        keys.push(BlobKey { cipher_uuid: rows[i].cipher_uuid.clone(), id: rows[i].id.clone() });
        i += 1;
    }
    assert(key_models(keys@) =~= blob_keys(views::<Attachment>(rows@)));
    keys
}

/// Why an attachment may not be deleted, if so. The attachment must exist and
/// belong to the cipher named, and the cipher must exist and belong to the
/// user; the conditions are judged in this order.
pub open spec fn delete_attachment_error(
    attachments: Seq<AttachmentModel>,
    ciphers: Seq<CipherModel>,
    user: Seq<char>,
    uuid: Seq<char>,
    attachment_id: Seq<char>,
) -> Option<Error> {
    match row_at::<Attachment>(attachments, attachment_id) {
        None => Some(Error::AttachmentNotFound),
        Some(attachment) => if attachment.cipher_uuid != uuid {
            Some(Error::AttachmentMismatch)
        } else {
            access_error(ciphers, user, uuid)
        },
    }
}

/// Deletes one attachment of a cipher: removes its row and returns where its
/// file is kept, for the file to be removed. A file that is already gone is
/// no failure: the row is what counts. A deletion that is refused changes
/// nothing.
pub fn delete_attachment(
    store: &mut Store,
    user_uuid: &String,
    uuid: &String,
    attachment_id: &String,
) -> (result: Result<BlobKey, Error>)
    ensures
        final(store).ciphers@ == old(store).ciphers@,
        final(store).folders@ == old(store).folders@,
        match result {
            Ok(key) => {
                &&& delete_attachment_error(
                    old(store).attachments@,
                    old(store).ciphers@,
                    user_uuid@,
                    uuid@,
                    attachment_id@,
                ) is None
                &&& key@ == (BlobKeyModel { cipher_uuid: uuid@, id: attachment_id@ })
                &&& final(store).attachments@ == without_key::<Attachment>(
                    old(store).attachments@,
                    attachment_id@,
                )
            },
            Err(e) => {
                &&& delete_attachment_error(
                    old(store).attachments@,
                    old(store).ciphers@,
                    user_uuid@,
                    uuid@,
                    attachment_id@,
                ) == Some(e)
                &&& final(store).attachments@ == old(store).attachments@
            },
        },
{
    let attachment = match store.attachments.find(attachment_id) {
        Some(attachment) => attachment,
        None => {
            return Err(Error::AttachmentNotFound);
        },
    };
    if !(attachment.cipher_uuid == *uuid) {
        return Err(Error::AttachmentMismatch);
    }
    match owned_cipher(store, user_uuid, uuid) {
        Ok(_) => {},
        Err(e) => {
            return Err(e);
        },
    }
    proof {
        crate::table::lemma_row_at_key::<Attachment>(store.attachments@, attachment_id@);
    }
    store.attachments.delete(attachment_id);
    Ok(BlobKey { cipher_uuid: attachment.cipher_uuid, id: attachment.id })
}

/// The same as [`delete_attachment`]: clients that cannot send a deletion
/// post it.
pub fn delete_attachment_post(
    store: &mut Store,
    user_uuid: &String,
    uuid: &String,
    attachment_id: &String,
) -> (result: Result<BlobKey, Error>)
    ensures
        final(store).ciphers@ == old(store).ciphers@,
        final(store).folders@ == old(store).folders@,
        match result {
            Ok(key) => {
                &&& delete_attachment_error(
                    old(store).attachments@,
                    old(store).ciphers@,
                    user_uuid@,
                    uuid@,
                    attachment_id@,
                ) is None
                &&& key@ == (BlobKeyModel { cipher_uuid: uuid@, id: attachment_id@ })
                &&& final(store).attachments@ == without_key::<Attachment>(
                    old(store).attachments@,
                    attachment_id@,
                )
            },
            Err(e) => {
                &&& delete_attachment_error(
                    old(store).attachments@,
                    old(store).ciphers@,
                    user_uuid@,
                    uuid@,
                    attachment_id@,
                ) == Some(e)
                &&& final(store).attachments@ == old(store).attachments@
            },
        },
{
    delete_attachment(store, user_uuid, uuid, attachment_id)
}

} // verus!
