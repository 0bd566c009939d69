//! The failures of the vault's operations.

use vstd::prelude::*;

verus! {

/// Why an operation failed.
#[derive(Clone, Copy, Debug, PartialEq, Eq, Structural)]
pub enum Error {
    /// No cipher has the given id.
    CipherNotFound,
    /// The cipher belongs to another user.
    CipherNotOwned,
    /// No folder has the given id.
    FolderNotFound,
    /// The folder belongs to another user.
    FolderNotOwned,
    /// No attachment has the given id.
    AttachmentNotFound,
    /// The attachment belongs to another cipher than the one named.
    AttachmentMismatch,
    /// The type discriminant is none of 1, 2, 3, 4.
    InvalidType,
    /// The payload that goes with the type discriminant is absent.
    DataMissing,
    /// The payload that goes with the type discriminant is not an object.
    DataInvalid,
    /// A cipher of an import could not be created.
    ImportFailed,
    /// An upload names no boundary, or its body cannot be read as parts.
    InvalidMultipart,
    /// The password given to confirm a purge is wrong.
    InvalidPassword,
}

/// The classes of failure.
#[derive(Clone, Copy, Debug, PartialEq, Eq, Structural)]
pub enum ErrorKind {
    NotFound,
    NotOwned,
    InvalidInput,
    Unauthorized,
}

impl Error {
    /// The class of each failure.
    pub open spec fn kind_of(self) -> ErrorKind {
        match self {
            Error::CipherNotFound | Error::FolderNotFound | Error::AttachmentNotFound => {
                ErrorKind::NotFound
            },
            Error::CipherNotOwned | Error::FolderNotOwned | Error::AttachmentMismatch => {
                ErrorKind::NotOwned
            },
            Error::InvalidType
            | Error::DataMissing
            | Error::DataInvalid
            | Error::ImportFailed
            | Error::InvalidMultipart => {
                ErrorKind::InvalidInput
            },
            Error::InvalidPassword => ErrorKind::Unauthorized,
        }
    }

    /// The message shown for each failure.
    pub open spec fn message_of(self) -> Seq<char> {
        match self {
            Error::CipherNotFound => "Cipher doesn't exist"@,
            Error::CipherNotOwned => "Cipher is not owned by user"@,
            Error::FolderNotFound => "Folder doesn't exist"@,
            Error::FolderNotOwned => "Folder is not owned by user"@,
            Error::AttachmentNotFound => "Attachment doesn't exist"@,
            Error::AttachmentMismatch => "Attachment from other cipher"@,
            Error::InvalidType => "Invalid type"@,
            Error::DataMissing => "Data missing"@,
            Error::DataInvalid => "Data invalid"@,
            Error::ImportFailed => "Error creating cipher"@,
            Error::InvalidMultipart => "Error processing multipart data"@,
            Error::InvalidPassword => "Invalid password"@,
        }
    }

    /// The class of the failure.
    pub fn kind(&self) -> (kind: ErrorKind)
        ensures
            kind == self.kind_of(),
    {
        match self {
            Error::CipherNotFound | Error::FolderNotFound | Error::AttachmentNotFound => {
                ErrorKind::NotFound
            },
            Error::CipherNotOwned | Error::FolderNotOwned | Error::AttachmentMismatch => {
                ErrorKind::NotOwned
            },
            Error::InvalidType
            | Error::DataMissing
            | Error::DataInvalid
            | Error::ImportFailed
            | Error::InvalidMultipart => {
                ErrorKind::InvalidInput
            },
            Error::InvalidPassword => ErrorKind::Unauthorized,
        }
    }

    /// The message to show to the user.
    pub fn message(&self) -> (text: String)
        ensures
            text@ == self.message_of(),
    {
        match self {
            Error::CipherNotFound => String::from_str("Cipher doesn't exist"),
            Error::CipherNotOwned => String::from_str("Cipher is not owned by user"),
            Error::FolderNotFound => String::from_str("Folder doesn't exist"),
            Error::FolderNotOwned => String::from_str("Folder is not owned by user"),
            Error::AttachmentNotFound => String::from_str("Attachment doesn't exist"),
            Error::AttachmentMismatch => String::from_str("Attachment from other cipher"),
            Error::InvalidType => String::from_str("Invalid type"),
            Error::DataMissing => String::from_str("Data missing"),
            Error::DataInvalid => String::from_str("Data invalid"),
            Error::ImportFailed => String::from_str("Error creating cipher"),
            Error::InvalidMultipart => String::from_str("Error processing multipart data"),
            Error::InvalidPassword => String::from_str("Invalid password"),
        }
    }
}

} // verus!
