//! The rows of the vault: ciphers, folders and attachments.

use vstd::prelude::*;

verus! {

/// The characters of an optional text.
pub open spec fn opt_text(text: Option<String>) -> Option<Seq<char>> {
    match text {
        Some(s) => Some(s@),
        None => None,
    }
}

/// A copy of an optional text.
pub fn copy_opt(text: &Option<String>) -> (r: Option<String>)
    ensures
        r == *text,
{
    match text {
        Some(s) => Some(s.clone()),
        None => None,
    }
}

/// A row of a keyed table: it has a key of its own and names the row of
/// another table that owns it.
pub trait Row: View + Sized {
    /// The key under which the row is stored.
    spec fn key(v: Self::V) -> Seq<char>;

    /// The key of its owner: a user for a cipher or a folder, a cipher for an
    /// attachment.
    spec fn owner(v: Self::V) -> Seq<char>;

    fn key_text(&self) -> (key: &String)
        ensures
            key@ == Self::key(self@),
    ;

    fn has_key(&self, key: &String) -> (b: bool)
        ensures
            b == (Self::key(self@) == key@),
    ;

    fn has_owner(&self, owner: &String) -> (b: bool)
        ensures
            b == (Self::owner(self@) == owner@),
    ;

    fn duplicate(&self) -> (r: Self)
        ensures
            r@ == self@,
    ;
}

/// One encrypted vault item with its metadata. `data` holds the stored
/// payload, a JSON object as text, whose shape goes with `type_`.
#[derive(Debug, PartialEq, Eq)]
pub struct Cipher {
    pub uuid: String,
    pub user_uuid: String,
    pub folder_uuid: Option<String>,
    pub organization_uuid: Option<String>,
    pub type_: i32,
    pub name: String,
    pub notes: Option<String>,
    pub fields: Option<String>,
    pub data: String,
    pub favorite: bool,
}

/// The value of a [`Cipher`].
pub struct CipherModel {
    pub uuid: Seq<char>,
    pub user_uuid: Seq<char>,
    pub folder_uuid: Option<Seq<char>>,
    pub organization_uuid: Option<Seq<char>>,
    pub type_: i32,
    pub name: Seq<char>,
    pub notes: Option<Seq<char>>,
    pub fields: Option<Seq<char>>,
    pub data: Seq<char>,
    pub favorite: bool,
}

impl View for Cipher {
    type V = CipherModel;

    open spec fn view(&self) -> CipherModel {
        CipherModel {
            uuid: self.uuid@,
            user_uuid: self.user_uuid@,
            folder_uuid: opt_text(self.folder_uuid),
            organization_uuid: opt_text(self.organization_uuid),
            type_: self.type_,
            name: self.name@,
            notes: opt_text(self.notes),
            fields: opt_text(self.fields),
            data: self.data@,
            favorite: self.favorite,
        }
    }
}

impl CipherModel {
    /// A cipher as it is before anything is merged into it: no folder, no
    /// organization, no notes, no custom fields, an empty payload.
    pub open spec fn fresh(
        uuid: Seq<char>,
        user_uuid: Seq<char>,
        type_: i32,
        name: Seq<char>,
        favorite: bool,
    ) -> CipherModel {
        CipherModel {
            uuid,
            user_uuid,
            folder_uuid: None,
            organization_uuid: None,
            type_,
            name,
            notes: None,
            fields: None,
            data: Seq::empty(),
            favorite,
        }
    }
}

impl Cipher {
    /// A new cipher of the given type, owned by the user.
    pub fn new(uuid: String, user_uuid: String, type_: i32, name: String, favorite: bool) -> (c:
        Cipher)
        ensures
            c@ == CipherModel::fresh(uuid@, user_uuid@, type_, name@, favorite),
    {
        Cipher {
            uuid,
            user_uuid,
            folder_uuid: None,
            organization_uuid: None,
            type_,
            name,
            notes: None,
            fields: None,
            data: String::new(),
            favorite,
        }
    }
}

impl Clone for Cipher {
    fn clone(&self) -> (r: Cipher)
        ensures
            r@ == self@,
    {
        self.duplicate()
    }
}

impl Row for Cipher {
    open spec fn key(v: CipherModel) -> Seq<char> {
        v.uuid
    }

    open spec fn owner(v: CipherModel) -> Seq<char> {
        v.user_uuid
    }

    fn key_text(&self) -> (key: &String) {
        &self.uuid
    }

    fn has_key(&self, key: &String) -> (b: bool) {
        self.uuid == *key
    }

    fn has_owner(&self, owner: &String) -> (b: bool) {
        self.user_uuid == *owner
    }

    fn duplicate(&self) -> (r: Cipher) {
        Cipher {
            uuid: self.uuid.clone(),
            user_uuid: self.user_uuid.clone(),
            folder_uuid: copy_opt(&self.folder_uuid),
            organization_uuid: copy_opt(&self.organization_uuid),
            type_: self.type_,
            name: self.name.clone(),
            notes: copy_opt(&self.notes),
            fields: copy_opt(&self.fields),
            data: self.data.clone(),
            favorite: self.favorite,
        }
    }
}

/// A user's label under which ciphers are grouped.
#[derive(Debug, PartialEq, Eq)]
pub struct Folder {
    pub uuid: String,
    pub user_uuid: String,
    pub name: String,
}

/// The value of a [`Folder`].
pub struct FolderModel {
    pub uuid: Seq<char>,
    pub user_uuid: Seq<char>,
    pub name: Seq<char>,
}

impl View for Folder {
    type V = FolderModel;

    open spec fn view(&self) -> FolderModel {
        FolderModel { uuid: self.uuid@, user_uuid: self.user_uuid@, name: self.name@ }
    }
}

impl Folder {
    /// A new folder of the user.
    pub fn new(uuid: String, user_uuid: String, name: String) -> (f: Folder)
        ensures
            f@ == (FolderModel { uuid: uuid@, user_uuid: user_uuid@, name: name@ }),
    {
        Folder { uuid, user_uuid, name }
    }
}

impl Clone for Folder {
    fn clone(&self) -> (r: Folder)
        ensures
            r@ == self@,
    {
        self.duplicate()
    }
}

impl Row for Folder {
    open spec fn key(v: FolderModel) -> Seq<char> {
        v.uuid
    }

    open spec fn owner(v: FolderModel) -> Seq<char> {
        v.user_uuid
    }

    fn key_text(&self) -> (key: &String) {
        &self.uuid
    }

    fn has_key(&self, key: &String) -> (b: bool) {
        self.uuid == *key
    }

    fn has_owner(&self, owner: &String) -> (b: bool) {
        self.user_uuid == *owner
    }

    fn duplicate(&self) -> (r: Folder) {
        Folder {
            uuid: self.uuid.clone(),
            user_uuid: self.user_uuid.clone(),
            name: self.name.clone(),
        }
    }
}

/// A file bound to one cipher. `id` is the generated name under which the
/// file is kept; `file_name` is the name the client gave, which is shown and
/// never used as a path.
#[derive(Debug, PartialEq, Eq)]
pub struct Attachment {
    pub id: String,
    pub cipher_uuid: String,
    pub file_name: String,
    pub file_size: i32,
}

/// The value of an [`Attachment`].
pub struct AttachmentModel {
    pub id: Seq<char>,
    pub cipher_uuid: Seq<char>,
    pub file_name: Seq<char>,
    pub file_size: i32,
}

impl View for Attachment {
    type V = AttachmentModel;

    open spec fn view(&self) -> AttachmentModel {
        AttachmentModel {
            id: self.id@,
            cipher_uuid: self.cipher_uuid@,
            file_name: self.file_name@,
            file_size: self.file_size,
        }
    }
}

impl Attachment {
    /// A new attachment of the cipher.
    pub fn new(id: String, cipher_uuid: String, file_name: String, file_size: i32) -> (a:
        Attachment)
        ensures
            a@ == (AttachmentModel {
                id: id@,
                cipher_uuid: cipher_uuid@,
                file_name: file_name@,
                file_size,
            }),
    {
        Attachment { id, cipher_uuid, file_name, file_size }
    }
}

impl Clone for Attachment {
    fn clone(&self) -> (r: Attachment)
        ensures
            r@ == self@,
    {
        self.duplicate()
    }
}

impl Row for Attachment {
    open spec fn key(v: AttachmentModel) -> Seq<char> {
        v.id
    }

    open spec fn owner(v: AttachmentModel) -> Seq<char> {
        v.cipher_uuid
    }

    fn key_text(&self) -> (key: &String) {
        &self.id
    }

    fn has_key(&self, key: &String) -> (b: bool) {
        self.id == *key
    }

    fn has_owner(&self, owner: &String) -> (b: bool) {
        self.cipher_uuid == *owner
    }

    fn duplicate(&self) -> (r: Attachment) {
        Attachment {
            id: self.id.clone(),
            cipher_uuid: self.cipher_uuid.clone(),
            file_name: self.file_name.clone(),
            file_size: self.file_size,
        }
    }
}

} // verus!
