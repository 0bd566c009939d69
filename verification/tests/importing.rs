use cipher_vault::error::{Error, ErrorKind};
use cipher_vault::import::{
    post_ciphers_import, read_relations, resolve_folder, ImportCipher, ImportData, ImportFolder,
    RelationsData,
};
use cipher_vault::json::Json;
use cipher_vault::merge::CipherData;
use cipher_vault::model::Folder;
use cipher_vault::store::Store;

fn s(text: &str) -> String {
    text.to_string()
}

fn note(uuid: &str, name: &str) -> ImportCipher {
    ImportCipher {
        uuid: s(uuid),
        data: CipherData {
            folder_id: None,
            organization_id: None,
            type_: 2,
            name: s(name),
            notes: None,
            fields: None,
            login: None,
            secure_note: Some(Json::Object(vec![(s("type"), Json::Number(serde_json::Number::from(0u64)))])),
            card: None,
            identity: None,
            favorite: false,
        },
    }
}

fn folder(uuid: &str, name: &str) -> ImportFolder {
    ImportFolder { uuid: s(uuid), name: s(name) }
}

fn relation(key: u32, value: u32) -> RelationsData {
    RelationsData { key, value }
}

#[test]
fn assigns_folders_by_position() {
    let mut store = Store::new();
    let data = ImportData {
        folders: vec![folder("id-f0", "F0"), folder("id-f1", "F1")],
        ciphers: vec![note("c0", "C0"), note("c1", "C1"), note("c2", "C2")],
        folder_relationships: vec![relation(0, 1), relation(2, 0)],
    };
    assert_eq!(post_ciphers_import(&mut store, &s("alice"), &data), Ok(()));
    assert_eq!(store.ciphers.find(&s("c0")).unwrap().folder_uuid, Some(s("id-f1")));
    assert_eq!(store.ciphers.find(&s("c1")).unwrap().folder_uuid, None);
    assert_eq!(store.ciphers.find(&s("c2")).unwrap().folder_uuid, Some(s("id-f0")));
    assert_eq!(
        store.folders.all(),
        vec![Folder::new(s("id-f0"), s("alice"), s("F0")), Folder::new(s("id-f1"), s("alice"), s("F1"))]
    );
    let imported = store.ciphers.find(&s("c0")).unwrap();
    assert_eq!(imported.user_uuid, "alice");
    assert_eq!(imported.type_, 2);
    assert_eq!(imported.name, "C0");
    assert_eq!(imported.data, "{\"Fields\":null,\"Name\":\"C0\",\"Notes\":null,\"Type\":0}");
    assert_eq!(store.attachments.len(), 0);
}

#[test]
fn the_relationships_overrule_a_submitted_folder() {
    let mut store = Store::new();
    store.folders.save(Folder::new(s("old"), s("alice"), s("old")));
    let mut in_old = note("c0", "C0");
    in_old.data.folder_id = Some(s("old"));
    let mut in_old_too = note("c1", "C1");
    in_old_too.data.folder_id = Some(s("old"));
    let data = ImportData {
        folders: vec![folder("new", "N")],
        ciphers: vec![in_old, in_old_too],
        folder_relationships: vec![relation(0, 0)],
    };
    assert_eq!(post_ciphers_import(&mut store, &s("alice"), &data), Ok(()));
    assert_eq!(store.ciphers.find(&s("c0")).unwrap().folder_uuid, Some(s("new")));
    assert_eq!(store.ciphers.find(&s("c1")).unwrap().folder_uuid, None);
}

#[test]
fn stops_at_the_first_cipher_that_cannot_be_merged_and_keeps_what_came_before() {
    let mut store = Store::new();
    let mut bad = note("c1", "C1");
    bad.data.type_ = 9;
    let data = ImportData {
        folders: vec![folder("f0", "F0")],
        ciphers: vec![note("c0", "C0"), bad, note("c2", "C2")],
        folder_relationships: vec![relation(2, 0)],
    };
    let failed = post_ciphers_import(&mut store, &s("alice"), &data);
    assert_eq!(failed, Err(Error::ImportFailed));
    assert_eq!(Error::ImportFailed.message(), "Error creating cipher");
    assert_eq!(Error::ImportFailed.kind(), ErrorKind::InvalidInput);
    assert_eq!(store.folders.len(), 1);
    assert!(store.ciphers.find(&s("c0")).is_some());
    assert_eq!(store.ciphers.find(&s("c1")), None);
    assert_eq!(store.ciphers.find(&s("c2")), None);
    assert_eq!(store.ciphers.len(), 1);
}

#[test]
fn a_submitted_folder_of_another_user_fails_the_import() {
    let mut store = Store::new();
    store.folders.save(Folder::new(s("fb"), s("bob"), s("his")));
    let mut foreign = note("c0", "C0");
    foreign.data.folder_id = Some(s("fb"));
    let data = ImportData { folders: vec![], ciphers: vec![foreign], folder_relationships: vec![] };
    assert_eq!(post_ciphers_import(&mut store, &s("alice"), &data), Err(Error::ImportFailed));
    assert_eq!(store.ciphers.len(), 0);
}

#[test]
fn a_cipher_may_name_a_folder_that_the_import_creates() {
    let mut store = Store::new();
    let mut named = note("c0", "C0");
    named.data.folder_id = Some(s("f0"));
    let data = ImportData {
        folders: vec![folder("f0", "F0")],
        ciphers: vec![named],
        folder_relationships: vec![],
    };
    assert_eq!(post_ciphers_import(&mut store, &s("alice"), &data), Ok(()));
    // merged with the folder, then put where the relationships say: nowhere
    assert_eq!(store.ciphers.find(&s("c0")).unwrap().folder_uuid, None);
}

#[test]
fn an_empty_import_creates_nothing() {
    let mut store = Store::new();
    let data = ImportData { folders: vec![], ciphers: vec![], folder_relationships: vec![relation(0, 0)] };
    assert_eq!(post_ciphers_import(&mut store, &s("alice"), &data), Ok(()));
    assert_eq!(store.ciphers.len(), 0);
    assert_eq!(store.folders.len(), 0);
}

#[test]
fn of_two_relationships_for_one_cipher_the_later_counts() {
    let map = read_relations(&vec![relation(0, 1), relation(3, 2), relation(0, 0)]);
    assert_eq!(map.len(), 2);
    assert_eq!(map.get(&0), Some(&0));
    assert_eq!(map.get(&3), Some(&2));
    assert_eq!(map.get(&1), None);
}

#[test]
fn resolves_no_folder_where_none_stands_at_the_position() {
    let folders = vec![folder("f0", "F0"), folder("f1", "F1")];
    let map = read_relations(&vec![relation(0, 1), relation(1, 2), relation(2, u32::MAX)]);
    assert_eq!(resolve_folder(&folders, &map, 0), Some(s("f1")));
    assert_eq!(resolve_folder(&folders, &map, 1), None);
    assert_eq!(resolve_folder(&folders, &map, 2), None);
    assert_eq!(resolve_folder(&folders, &map, 3), None);
    assert_eq!(resolve_folder(&folders, &map, usize::MAX), None);
}
