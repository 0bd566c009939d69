//! The import orchestrator: creates folders and ciphers in bulk. An import
//! names the folder of a cipher by position: a relationship pairs the
//! position of a cipher in the list of ciphers with the position of a folder
//! in the list of folders, both counted from zero.
//!
//! An import is no transaction. Where a cipher cannot be created the import
//! stops with a failure, and what was created before it stays.

use crate::ciphers::created;
use crate::error::Error;
use crate::merge::{merge_error, update_cipher_from_data, CipherData};
use crate::model::{Cipher, CipherModel, Folder, FolderModel};
use crate::store::Store;
use crate::table::with_row;
use std::collections::HashMap;
use vstd::prelude::*;

verus! {

broadcast use vstd::std_specs::hash::group_hash_axioms;

/// One relationship: the cipher at position `key` goes into the folder at
/// position `value`.
#[derive(Clone, Copy, Debug, PartialEq, Eq)]
pub struct RelationsData {
    pub key: u32,
    pub value: u32,
}

/// A folder to create, under the id it is to have. The id is the caller's to
/// draw, at random: a row that has it already is replaced.
#[derive(Debug, PartialEq, Eq)]
pub struct ImportFolder {
    pub uuid: String,
    pub name: String,
}

/// A cipher to create, under the id it is to have, drawn as that of a
/// folder.
#[derive(Debug, PartialEq)]
pub struct ImportCipher {
    pub uuid: String,
    pub data: CipherData,
}

/// What an import holds.
#[derive(Debug, PartialEq)]
pub struct ImportData {
    pub ciphers: Vec<ImportCipher>,
    pub folders: Vec<ImportFolder>,
    pub folder_relationships: Vec<RelationsData>,
}

/// The folder position assigned to each cipher position. Of two
/// relationships for one cipher the later counts.
pub open spec fn relation_map(relations: Seq<RelationsData>) -> Map<u32, u32>
    decreases relations.len(),
{
    if relations.len() == 0 {
        Map::empty()
    } else {
        relation_map(relations.drop_last()).insert(relations.last().key, relations.last().value)
    }
}

/// The id of the folder that the cipher at position `i` goes into: that of
/// the created folder at the assigned position, or none where no position is
/// assigned or no folder stands there.
pub open spec fn assigned_folder(
    folders: Seq<ImportFolder>,
    relations: Map<u32, u32>,
    i: int,
) -> Option<Seq<char>> {
    if 0 <= i <= u32::MAX && relations.contains_key(i as u32) && relations[i as u32]
        < folders.len() {
        Some(folders[relations[i as u32] as int].uuid@)
    } else {
        None
    }
}

/// The folder table after the folders of an import are created, in order.
pub open spec fn with_folders(
    rows: Seq<FolderModel>,
    user: Seq<char>,
    folders: Seq<ImportFolder>,
) -> Seq<FolderModel>
    decreases folders.len(),
{
    if folders.len() == 0 {
        rows
    } else {
        with_row::<Folder>(
            with_folders(rows, user, folders.drop_last()),
            FolderModel { uuid: folders.last().uuid@, user_uuid: user, name: folders.last().name@ },
        )
    }
}

/// How many ciphers of an import are created: all of them, or those before
/// the first that cannot be merged.
pub open spec fn imported_count(
    folder_rows: Seq<FolderModel>,
    user: Seq<char>,
    ciphers: Seq<ImportCipher>,
) -> int
    decreases ciphers.len(),
{
    if ciphers.len() == 0 {
        0
    } else {
        let before = imported_count(folder_rows, user, ciphers.drop_last());
        if before == ciphers.len() - 1 && merge_error(folder_rows, user, ciphers.last().data@)
            is None {
            before + 1
        } else {
            before
        }
    }
}

/// The cipher that an import creates: as a cipher created from the same
/// fields, but in the folder that the relationships assign, and in none where
/// they assign none.
pub open spec fn imported_cipher(
    user: Seq<char>,
    cipher: ImportCipher,
    folder: Option<Seq<char>>,
) -> CipherModel {
    CipherModel { folder_uuid: folder, ..created(cipher.uuid@, user, cipher.data@) }
}

/// The cipher table after the first `n` ciphers of an import are created.
pub open spec fn with_imported(
    rows: Seq<CipherModel>,
    user: Seq<char>,
    data: ImportData,
    n: int,
) -> Seq<CipherModel>
    decreases n,
{
    if n <= 0 {
        rows
    } else {
        with_row::<Cipher>(
            with_imported(rows, user, data, n - 1),
            imported_cipher(
                user,
                data.ciphers@[n - 1],
                assigned_folder(data.folders@, relation_map(data.folder_relationships@), n - 1),
            ),
        )
    }
}

/// Reads the relationships into a map from cipher position to folder
/// position.
pub fn read_relations(relations: &Vec<RelationsData>) -> (map: HashMap<u32, u32>)
    ensures
        map@ == relation_map(relations@),
{
    let mut map: HashMap<u32, u32> = HashMap::new();
    let mut i: usize = 0;
    assert(relations@.take(0) =~= Seq::<RelationsData>::empty());
    while i < relations.len()
        invariant
            i <= relations.len(),
            map@ == relation_map(relations@.take(i as int)),
        decreases relations.len() - i,
    {
        proof {
            assert(relations@.take(i + 1).drop_last() =~= relations@.take(i as int));
            assert(relations@.take(i + 1).last() == relations@[i as int]);
        }
        map.insert(relations[i].key, relations[i].value);
        i += 1;
    }
    assert(relations@.take(relations.len() as int) =~= relations@);
    map
}

/// The id of the folder that the cipher at position `i` goes into.
pub fn resolve_folder(
    folders: &Vec<ImportFolder>,
    relations: &HashMap<u32, u32>,
    i: usize,
) -> (folder: Option<String>)
    ensures
        crate::model::opt_text(folder) == assigned_folder(folders@, relations@, i as int),
{
    if i > u32::MAX as usize {
        return None;
    }
    let key = i as u32;
    match relations.get(&key) {
        Some(position) => {
            let at = *position as usize;
            if at < folders.len() {
                Some(folders[at].uuid.clone())
            } else {
                None
            }
        },
        None => None,
    }
}

/// Imports folders and ciphers for the user. Creates every folder, in order;
/// then creates the ciphers, in order, each in the folder that the
/// relationships assign to its position. Where a cipher cannot be merged the
/// import fails at that cipher: the folders and the ciphers before it stay
/// created, and no later cipher is.
pub fn post_ciphers_import(store: &mut Store, user_uuid: &String, data: &ImportData) -> (result:
    Result<(), Error>)
    ensures
        final(store).attachments@ == old(store).attachments@,
        final(store).folders@ == with_folders(old(store).folders@, user_uuid@, data.folders@),
        final(store).ciphers@ == with_imported(
            old(store).ciphers@,
            user_uuid@,
            *data,
            imported_count(final(store).folders@, user_uuid@, data.ciphers@),
        ),
        result == if imported_count(final(store).folders@, user_uuid@, data.ciphers@)
            == data.ciphers@.len() {
            Ok::<(), Error>(())
        } else {
            Err::<(), Error>(Error::ImportFailed)
        },
{
    let mut f: usize = 0;
    assert(data.folders@.take(0) =~= Seq::<ImportFolder>::empty());
    while f < data.folders.len()
        invariant
            f <= data.folders.len(),
            store.attachments@ == old(store).attachments@,
            store.ciphers@ == old(store).ciphers@,
            store.folders@ == with_folders(
                old(store).folders@,
                user_uuid@,
                data.folders@.take(f as int),
            ),
        decreases data.folders.len() - f,
    {
        proof {
            assert(data.folders@.take(f + 1).drop_last() =~= data.folders@.take(f as int));
            assert(data.folders@.take(f + 1).last() == data.folders@[f as int]);
        }
        let folder = Folder::new(
            data.folders[f].uuid.clone(),
            user_uuid.clone(),
            data.folders[f].name.clone(),
        );
        store.folders.save(folder);
        f += 1;
    }
    assert(data.folders@.take(data.folders.len() as int) =~= data.folders@);
    let relations = read_relations(&data.folder_relationships);
    let ghost folder_rows = store.folders@;
    let mut i: usize = 0;
    assert(data.ciphers@.take(0) =~= Seq::<ImportCipher>::empty());
    while i < data.ciphers.len()
        invariant
            i <= data.ciphers.len(),
            relations@ == relation_map(data.folder_relationships@),
            store.attachments@ == old(store).attachments@,
            store.folders@ == folder_rows,
            folder_rows == with_folders(old(store).folders@, user_uuid@, data.folders@),
            imported_count(folder_rows, user_uuid@, data.ciphers@.take(i as int)) == i,
            store.ciphers@ == with_imported(old(store).ciphers@, user_uuid@, *data, i as int),
        decreases data.ciphers.len() - i,
    {
        let item = &data.ciphers[i];
        let folder_uuid = resolve_folder(&data.folders, &relations, i);
        let cipher_data = item.data.clone();
        let favorite = cipher_data.favorite;
        let mut cipher = Cipher::new(
            item.uuid.clone(),
            user_uuid.clone(),
            cipher_data.type_,
            cipher_data.name.clone(),
            favorite,
        );
        proof {
            assert(data.ciphers@.take(i + 1).drop_last() =~= data.ciphers@.take(i as int));
            assert(data.ciphers@.take(i + 1).last() == data.ciphers@[i as int]);
        }
        match update_cipher_from_data(&mut cipher, cipher_data, user_uuid, store) {
            Ok(()) => {},
            Err(_) => {
                proof {
                    lemma_count_stops(folder_rows, user_uuid@, data.ciphers@, i as int);
                }
                return Err(Error::ImportFailed);
            },
        }
        cipher.folder_uuid = folder_uuid;
        store.ciphers.save(cipher);
        i += 1;
    }
    assert(data.ciphers@.take(data.ciphers.len() as int) =~= data.ciphers@);
    Ok(())
}

/// Once a cipher cannot be merged, no later cipher is counted.
pub proof fn lemma_count_stops(
    folder_rows: Seq<FolderModel>,
    user: Seq<char>,
    ciphers: Seq<ImportCipher>,
    i: int,
)
    requires
        0 <= i < ciphers.len(),
        imported_count(folder_rows, user, ciphers.take(i)) == i,
        merge_error(folder_rows, user, ciphers[i].data@) is Some,
    ensures
        imported_count(folder_rows, user, ciphers) == i,
{
    lemma_count_stays(folder_rows, user, ciphers, i, ciphers.len() as int);
    assert(ciphers.take(ciphers.len() as int) =~= ciphers);
}

proof fn lemma_count_stays(
    folder_rows: Seq<FolderModel>,
    user: Seq<char>,
    ciphers: Seq<ImportCipher>,
    i: int,
    n: int,
)
    requires
        0 <= i < n <= ciphers.len(),
        imported_count(folder_rows, user, ciphers.take(i)) == i,
        merge_error(folder_rows, user, ciphers[i].data@) is Some,
    ensures
        imported_count(folder_rows, user, ciphers.take(n)) == i,
    decreases n,
{
    assert(ciphers.take(n).drop_last() =~= ciphers.take(n - 1));
    assert(ciphers.take(n).last() == ciphers[n - 1]);
    if n - 1 > i {
        lemma_count_stays(folder_rows, user, ciphers, i, n - 1);
    }
}

} // verus!
