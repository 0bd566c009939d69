//! The sync aggregator: everything a user has, read in one piece, and the
//! documents in which snapshots and lists are handed out.
//!
//! Reading changes nothing. Each collection comes in its table's order;
//! nothing is promised of the order between collections.

use crate::ciphers::{get_ciphers, is_entry};
use crate::json::{lemma_view_parts, models, Json, JsonModel};
use crate::model::{Attachment, Cipher, Folder};
use crate::store::Store;
use crate::table::{owned_by, views};
use vstd::prelude::*;

verus! {

/// What a user has in the vault: the folders, and the ciphers, each with its
/// attachments.
#[derive(Debug, PartialEq, Eq)]
pub struct Snapshot {
    pub folders: Vec<Folder>,
    pub ciphers: Vec<(Cipher, Vec<Attachment>)>,
}

/// Reads every folder and every cipher of the user.
pub fn sync(store: &Store, user_uuid: &String) -> (snapshot: Snapshot)
    ensures
        views::<Folder>(snapshot.folders@) == owned_by::<Folder>(store.folders@, user_uuid@),
        snapshot.ciphers@.len() == owned_by::<Cipher>(store.ciphers@, user_uuid@).len(),
        forall|i: int|
            0 <= i < snapshot.ciphers@.len() ==> is_entry(
                store.attachments@,
                owned_by::<Cipher>(store.ciphers@, user_uuid@)[i],
                #[trigger] snapshot.ciphers@[i],
            ),
{
    let folders = store.folders.find_by_owner(user_uuid);
    let ciphers = get_ciphers(store, user_uuid);
    Snapshot { folders, ciphers }
}

/// The entries of the snapshot document of one account.
pub open spec fn sync_entries(
    profile: JsonModel,
    folders: Seq<JsonModel>,
    ciphers: Seq<JsonModel>,
    domains: JsonModel,
) -> Seq<(Seq<char>, JsonModel)> {
    seq![
        ("Profile"@, profile),
        ("Folders"@, JsonModel::Array(folders)),
        ("Ciphers"@, JsonModel::Array(ciphers)),
        ("Domains"@, domains),
        ("Object"@, JsonModel::Text("sync"@)),
    ]
}

/// Composes the snapshot document of one account from the documents of its
/// parts: the profile, the folders, the ciphers and the settings for
/// equivalent domains.
pub fn sync_document(profile: Json, folders: Vec<Json>, ciphers: Vec<Json>, domains: Json) -> (doc:
    Json)
    ensures
        doc@ == JsonModel::Object(
            sync_entries(profile@, models(folders@), models(ciphers@), domains@),
        ),
{
    let mut entries: Vec<(String, Json)> = Vec::new();
    entries.push((String::from_str("Profile"), profile));
    entries.push((String::from_str("Folders"), Json::array(folders)));
    entries.push((String::from_str("Ciphers"), Json::array(ciphers)));
    entries.push((String::from_str("Domains"), domains));
    entries.push((String::from_str("Object"), Json::Text(String::from_str("sync"))));
    let doc = Json::Object(entries);
    proof {
        lemma_view_parts(doc);
        assert(doc@->Object_0 =~= sync_entries(
            profile@,
            models(folders@),
            models(ciphers@),
            domains@,
        ));
    }
    doc
}

/// The entries of the document in which a list of items is handed out.
pub open spec fn list_entries(items: Seq<JsonModel>) -> Seq<(Seq<char>, JsonModel)> {
    seq![("Data"@, JsonModel::Array(items)), ("Object"@, JsonModel::Text("list"@))]
}

/// Wraps a list of item documents in the list document.
pub fn list_document(items: Vec<Json>) -> (doc: Json)
    ensures
        doc@ == JsonModel::Object(list_entries(models(items@))),
{
    let mut entries: Vec<(String, Json)> = Vec::new();
    entries.push((String::from_str("Data"), Json::array(items)));
    entries.push((String::from_str("Object"), Json::Text(String::from_str("list"))));
    let doc = Json::Object(entries);
    proof {
        lemma_view_parts(doc);
        assert(doc@->Object_0 =~= list_entries(models(items@)));
    }
    doc
}

} // verus!
