//! The item-synchronisation core of a password vault: encrypted cipher
//! records (logins, notes, cards, identities), the folders they are grouped
//! in and the files attached to them, on behalf of one authenticated user at
//! a time.
//!
//! - [`json`]: the documents that clients submit and the vault stores.
//! - [`casing`]: the field normalizer, from the clients' field names to the
//!   stored ones.
//! - [`model`], [`table`], [`store`]: the rows and the keyed tables that hold
//!   them.
//! - [`merge`]: the cipher payload merger.
//! - [`ciphers`], [`attachments`], [`import`], [`sync`]: the operations.
//! - [`error`]: the failures.
//! - [`laws`]: what holds of the operations, whatever the inputs.
//!
//! The payloads are ciphertext to this library: it never reads what a field
//! holds, only how the document is built.

pub mod attachments;
pub mod casing;
pub mod ciphers;
pub mod error;
pub mod import;
pub mod json;
pub mod laws;
pub mod merge;
pub mod model;
pub mod store;
pub mod sync;
pub mod table;
