use cipher_vault::attachments::{
    begin_upload, delete_attachment, delete_attachment_post, keys_of, names_match,
    new_attachment_id, post_attachment, record_part, upload_boundary, BlobKey, UploadedPart,
};
use cipher_vault::ciphers::{
    delete_all, delete_cipher, delete_cipher_post, get_cipher, get_ciphers, post_cipher,
    post_ciphers, put_cipher,
};
use cipher_vault::error::{Error, ErrorKind};
use cipher_vault::json::Json;
use cipher_vault::merge::CipherData;
use cipher_vault::model::{Attachment, Cipher, Folder};
use cipher_vault::store::Store;
use cipher_vault::sync::sync;

fn s(text: &str) -> String {
    text.to_string()
}

fn login(name: &str, username: &str) -> CipherData {
    CipherData {
        folder_id: None,
        organization_id: None,
        type_: 1,
        name: s(name),
        notes: None,
        fields: None,
        login: Some(Json::Object(vec![(s("username"), Json::Text(s(username)))])),
        secure_note: None,
        card: None,
        identity: None,
        favorite: false,
    }
}

fn part(id: &str, name: &str, saved: Option<u64>) -> UploadedPart {
    UploadedPart { id: s(id), file_name: s(name), saved }
}

fn key(cipher: &str, id: &str) -> BlobKey {
    BlobKey { cipher_uuid: s(cipher), id: s(id) }
}

fn vault() -> Store {
    let mut store = Store::new();
    store.folders.save(Folder::new(s("fa"), s("alice"), s("alice's")));
    store.folders.save(Folder::new(s("fb"), s("bob"), s("bob's")));
    assert!(post_ciphers(&mut store, &s("alice"), s("c1"), login("one", "a1")).is_ok());
    assert!(post_ciphers(&mut store, &s("bob"), s("c2"), login("two", "b")).is_ok());
    assert!(post_ciphers(&mut store, &s("alice"), s("c3"), login("three", "a3")).is_ok());
    store.attachments.save(Attachment::new(s("x1"), s("c1"), s("one.pdf"), 10));
    store.attachments.save(Attachment::new(s("x2"), s("c2"), s("two.pdf"), 20));
    store.attachments.save(Attachment::new(s("x3"), s("c1"), s("three.pdf"), 30));
    store
}

#[test]
fn names_an_attachment_by_ten_bytes_in_lower_hex() {
    let id = new_attachment_id(&[0x00, 0x01, 0x0a, 0x10, 0x7f, 0x80, 0xab, 0xcd, 0xef, 0xff]);
    assert_eq!(id, "00010a107f80abcdefff");
    assert_eq!(new_attachment_id(&[0; 10]), "00000000000000000000");
}

#[test]
fn creates_a_cipher_and_returns_it() {
    let mut store = Store::new();
    let mut data = login("mail", "me");
    data.favorite = true;
    let (cipher, attachments) = post_ciphers(&mut store, &s("alice"), s("c1"), data).unwrap();
    assert_eq!(cipher.uuid, "c1");
    assert_eq!(cipher.user_uuid, "alice");
    assert_eq!(cipher.type_, 1);
    assert_eq!(cipher.name, "mail");
    assert!(cipher.favorite);
    assert_eq!(cipher.data, "{\"Fields\":null,\"Name\":\"mail\",\"Notes\":null,\"Username\":\"me\"}");
    assert_eq!(attachments, vec![]);
    assert_eq!(store.ciphers.find(&s("c1")), Some(cipher));
    assert_eq!(store.ciphers.len(), 1);
}

#[test]
fn a_creation_that_fails_saves_nothing() {
    let mut store = vault();
    let before = store.ciphers.all();

    let mut bad_type = login("x", "y");
    bad_type.type_ = 7;
    let failed = post_ciphers(&mut store, &s("alice"), s("new"), bad_type);
    assert_eq!(failed, Err(Error::InvalidType));
    assert_eq!(failed.unwrap_err().kind(), ErrorKind::InvalidInput);

    let mut missing = login("x", "y");
    missing.type_ = 3;
    assert_eq!(post_ciphers(&mut store, &s("alice"), s("new"), missing), Err(Error::DataMissing));

    let mut foreign = login("x", "y");
    foreign.folder_id = Some(s("fb"));
    assert_eq!(post_ciphers(&mut store, &s("alice"), s("new"), foreign), Err(Error::FolderNotOwned));

    assert_eq!(store.ciphers.all(), before);
    assert_eq!(store.ciphers.find(&s("new")), None);
}

#[test]
fn reads_one_cipher_with_its_attachments() {
    let store = vault();
    let (cipher, attachments) = get_cipher(&store, &s("alice"), &s("c1")).unwrap();
    assert_eq!(cipher.name, "one");
    assert_eq!(
        attachments,
        vec![
            Attachment::new(s("x1"), s("c1"), s("one.pdf"), 10),
            Attachment::new(s("x3"), s("c1"), s("three.pdf"), 30),
        ]
    );
    assert_eq!(get_cipher(&store, &s("alice"), &s("c2")), Err(Error::CipherNotOwned));
    assert_eq!(get_cipher(&store, &s("alice"), &s("c9")), Err(Error::CipherNotFound));
}

#[test]
fn reads_all_ciphers_of_the_user_only() {
    let store = vault();
    let entries = get_ciphers(&store, &s("alice"));
    let names: Vec<&str> = entries.iter().map(|e| e.0.name.as_str()).collect();
    assert_eq!(names, vec!["one", "three"]);
    assert_eq!(entries[0].1.len(), 2);
    assert_eq!(entries[1].1.len(), 0);
    assert_eq!(get_ciphers(&store, &s("carol")).len(), 0);
}

#[test]
fn sync_reads_folders_and_ciphers_of_the_user() {
    let store = vault();
    let snapshot = sync(&store, &s("bob"));
    assert_eq!(snapshot.folders, vec![Folder::new(s("fb"), s("bob"), s("bob's"))]);
    assert_eq!(snapshot.ciphers.len(), 1);
    assert_eq!(snapshot.ciphers[0].0.uuid, "c2");
    assert_eq!(snapshot.ciphers[0].1, vec![Attachment::new(s("x2"), s("c2"), s("two.pdf"), 20)]);
    let nothing = sync(&store, &s("carol"));
    assert_eq!(nothing.folders, vec![]);
    assert_eq!(nothing.ciphers.len(), 0);
}

#[test]
fn replaces_a_cipher_in_place() {
    let mut store = vault();
    let mut data = login("renamed", "new-user");
    data.favorite = true;
    data.folder_id = Some(s("fa"));
    data.notes = Some(s("note"));
    let (cipher, attachments) = put_cipher(&mut store, &s("alice"), &s("c1"), data).unwrap();
    assert_eq!(cipher.uuid, "c1");
    assert_eq!(cipher.user_uuid, "alice");
    assert_eq!(cipher.name, "renamed");
    assert_eq!(cipher.type_, 1);
    assert!(cipher.favorite);
    assert_eq!(cipher.folder_uuid, Some(s("fa")));
    assert_eq!(cipher.notes, Some(s("note")));
    assert_eq!(
        cipher.data,
        "{\"Fields\":null,\"Name\":\"renamed\",\"Notes\":\"note\",\"Username\":\"new-user\"}"
    );
    assert_eq!(attachments.len(), 2);
    let ids: Vec<String> = store.ciphers.all().into_iter().map(|c| c.uuid).collect();
    assert_eq!(ids, vec![s("c1"), s("c2"), s("c3")]);
    assert_eq!(store.ciphers.find(&s("c1")), Some(cipher));
}

#[test]
fn a_replacement_of_another_type_changes_the_type_of_the_row() {
    let mut store = vault();
    let mut card = login("card", "unused");
    card.type_ = 3;
    card.login = None;
    card.card = Some(Json::Object(vec![(s("code"), Json::Text(s("123")))]));
    let (cipher, _) = put_cipher(&mut store, &s("alice"), &s("c1"), card).unwrap();
    assert_eq!(cipher.type_, 3);
    assert_eq!(cipher.data, "{\"Code\":\"123\",\"Fields\":null,\"Name\":\"card\",\"Notes\":null}");
    assert_eq!(store.ciphers.find(&s("c1")).unwrap().type_, 3);
    // a request whose own payload is absent is refused and the row stays
    let mut card = login("card", "kept for type 1 only");
    card.type_ = 3;
    assert_eq!(put_cipher(&mut store, &s("alice"), &s("c1"), card), Err(Error::DataMissing));
    assert_eq!(store.ciphers.find(&s("c1")).unwrap().type_, 3);
}

#[test]
fn a_replacement_without_notes_removes_them() {
    let mut store = vault();
    let mut first = login("one", "a");
    first.notes = Some(s("note"));
    first.fields = Some(vec![Json::Object(vec![(s("name"), Json::Text(s("pin")))])]);
    let (with_notes, _) = put_cipher(&mut store, &s("alice"), &s("c1"), first).unwrap();
    assert_eq!(with_notes.notes, Some(s("note")));
    assert_eq!(with_notes.fields, Some(s("[{\"name\":\"pin\"}]")));
    let (without, _) = put_cipher(&mut store, &s("alice"), &s("c1"), login("one", "a")).unwrap();
    assert_eq!(without.notes, None);
    assert_eq!(without.fields, None);
}

#[test]
fn a_replacement_that_fails_changes_nothing() {
    let mut store = vault();
    let before = store.ciphers.all();
    assert_eq!(put_cipher(&mut store, &s("alice"), &s("c2"), login("x", "y")), Err(Error::CipherNotOwned));
    assert_eq!(put_cipher(&mut store, &s("alice"), &s("c9"), login("x", "y")), Err(Error::CipherNotFound));
    let mut bad = login("x", "y");
    bad.type_ = 0;
    bad.favorite = true;
    assert_eq!(post_cipher(&mut store, &s("alice"), &s("c1"), bad), Err(Error::InvalidType));
    let mut bad = login("x", "y");
    bad.login = Some(Json::Text(s("no object")));
    assert_eq!(post_cipher(&mut store, &s("alice"), &s("c1"), bad), Err(Error::DataInvalid));
    assert_eq!(store.ciphers.all(), before);
}

#[test]
fn records_the_saved_parts_of_an_upload_only() {
    let mut store = vault();
    let parts = vec![part("aa", "first.txt", None), part("bb", "second.txt", Some(7))];
    let (cipher, attachments) = post_attachment(&mut store, &s("alice"), &s("c3"), &parts).unwrap();
    assert_eq!(cipher.uuid, "c3");
    assert_eq!(attachments, vec![Attachment::new(s("bb"), s("c3"), s("second.txt"), 7)]);
    assert_eq!(store.attachments.find_by_owner(&s("c3")).len(), 1);
    assert_eq!(store.attachments.find(&s("aa")), None);
    assert_eq!(store.attachments.len(), 4);
}

#[test]
fn an_upload_without_saved_parts_succeeds_and_records_nothing() {
    let mut store = vault();
    let result = post_attachment(&mut store, &s("alice"), &s("c3"), &vec![part("aa", "a", None)]);
    assert_eq!(result.unwrap().1, vec![]);
    let result = post_attachment(&mut store, &s("alice"), &s("c3"), &vec![]);
    assert_eq!(result.unwrap().1, vec![]);
    assert_eq!(store.attachments.len(), 3);
}

#[test]
fn refuses_an_upload_to_a_cipher_of_another_user() {
    let mut store = vault();
    let parts = vec![part("bb", "second.txt", Some(7))];
    assert_eq!(post_attachment(&mut store, &s("alice"), &s("c2"), &parts), Err(Error::CipherNotOwned));
    assert_eq!(post_attachment(&mut store, &s("alice"), &s("zz"), &parts), Err(Error::CipherNotFound));
    assert_eq!(store.attachments.len(), 3);
}

#[test]
fn records_the_low_32_bits_of_the_size() {
    let mut store = Store::new();
    record_part(&mut store, &s("c"), &part("a", "small", Some(2_147_483_647)));
    record_part(&mut store, &s("c"), &part("b", "wraps", Some(2_147_483_648)));
    record_part(&mut store, &s("c"), &part("d", "around", Some(4_294_967_296 + 5)));
    record_part(&mut store, &s("c"), &part("e", "failed", None));
    assert_eq!(store.attachments.find(&s("a")).unwrap().file_size, 2_147_483_647);
    assert_eq!(store.attachments.find(&s("b")).unwrap().file_size, -2_147_483_648);
    assert_eq!(store.attachments.find(&s("d")).unwrap().file_size, 5);
    assert_eq!(store.attachments.find(&s("e")), None);
}

#[test]
fn deletes_one_attachment_and_hands_out_its_file() {
    let mut store = vault();
    assert_eq!(delete_attachment(&mut store, &s("alice"), &s("c1"), &s("x1")), Ok(key("c1", "x1")));
    assert_eq!(store.attachments.find(&s("x1")), None);
    assert_eq!(store.attachments.len(), 2);
    assert_eq!(delete_attachment_post(&mut store, &s("alice"), &s("c1"), &s("x3")), Ok(key("c1", "x3")));
    assert_eq!(store.attachments.len(), 1);
}

#[test]
fn refuses_to_delete_an_attachment_in_the_order_of_the_checks() {
    let mut store = vault();
    assert_eq!(delete_attachment(&mut store, &s("alice"), &s("c1"), &s("nope")), Err(Error::AttachmentNotFound));
    // an attachment of another cipher, even where that cipher is missing
    assert_eq!(delete_attachment(&mut store, &s("alice"), &s("c3"), &s("x1")), Err(Error::AttachmentMismatch));
    assert_eq!(delete_attachment(&mut store, &s("alice"), &s("zz"), &s("x1")), Err(Error::AttachmentMismatch));
    assert_eq!(delete_attachment(&mut store, &s("alice"), &s("c2"), &s("x2")), Err(Error::CipherNotOwned));
    store.attachments.save(Attachment::new(s("orphan"), s("gone"), s("o"), 1));
    assert_eq!(delete_attachment(&mut store, &s("alice"), &s("gone"), &s("orphan")), Err(Error::CipherNotFound));
    assert_eq!(store.attachments.len(), 4);
}

#[test]
fn deleting_a_cipher_removes_its_attachments_and_its_row() {
    let mut store = vault();
    let keys = delete_cipher(&mut store, &s("alice"), &s("c1")).unwrap();
    assert_eq!(keys, vec![key("c1", "x1"), key("c1", "x3")]);
    assert_eq!(store.attachments.find_by_owner(&s("c1")), vec![]);
    assert_eq!(store.attachments.len(), 1);
    assert_eq!(store.ciphers.find(&s("c1")), None);
    assert_eq!(get_cipher(&store, &s("alice"), &s("c1")), Err(Error::CipherNotFound));
    assert_eq!(Error::CipherNotFound.kind(), ErrorKind::NotFound);
    // the others stay
    assert!(get_cipher(&store, &s("alice"), &s("c3")).is_ok());
    assert!(get_cipher(&store, &s("bob"), &s("c2")).is_ok());
}

#[test]
fn deleting_a_cipher_without_attachments_hands_out_no_file() {
    let mut store = vault();
    assert_eq!(delete_cipher_post(&mut store, &s("alice"), &s("c3")), Ok(vec![]));
    assert_eq!(store.ciphers.len(), 2);
    assert_eq!(store.attachments.len(), 3);
}

#[test]
fn refuses_to_delete_a_cipher_of_another_user() {
    let mut store = vault();
    assert_eq!(delete_cipher(&mut store, &s("alice"), &s("c2")), Err(Error::CipherNotOwned));
    assert_eq!(delete_cipher(&mut store, &s("alice"), &s("c9")), Err(Error::CipherNotFound));
    assert_eq!(store.ciphers.len(), 3);
    assert_eq!(store.attachments.len(), 3);
}

#[test]
fn a_purge_with_a_wrong_password_deletes_nothing() {
    let mut store = vault();
    let failed = delete_all(&mut store, &s("alice"), false);
    assert_eq!(failed, Err(Error::InvalidPassword));
    assert_eq!(failed.unwrap_err().kind(), ErrorKind::Unauthorized);
    assert_eq!(store.ciphers.len(), 3);
    assert_eq!(store.folders.len(), 2);
    assert_eq!(store.attachments.len(), 3);
}

#[test]
fn a_purge_deletes_everything_of_the_user_and_nothing_else() {
    let mut store = vault();
    let keys = delete_all(&mut store, &s("alice"), true).unwrap();
    assert_eq!(keys, vec![key("c1", "x1"), key("c1", "x3")]);
    assert_eq!(store.ciphers.find_by_owner(&s("alice")), vec![]);
    assert_eq!(store.folders.find_by_owner(&s("alice")), vec![]);
    assert_eq!(store.attachments.find_by_owner(&s("c1")), vec![]);
    assert_eq!(store.attachments.find_by_owner(&s("c3")), vec![]);
    assert_eq!(store.ciphers.len(), 1);
    assert_eq!(store.folders.all(), vec![Folder::new(s("fb"), s("bob"), s("bob's"))]);
    assert_eq!(store.attachments.all(), vec![Attachment::new(s("x2"), s("c2"), s("two.pdf"), 20)]);
    // a second purge finds nothing
    assert_eq!(delete_all(&mut store, &s("alice"), true), Ok(vec![]));
}

#[test]
fn keys_of_names_the_file_of_each_attachment() {
    let rows = vec![Attachment::new(s("x"), s("c"), s("n"), 1), Attachment::new(s("y"), s("d"), s("m"), 2)];
    assert_eq!(keys_of(&rows), vec![key("c", "x"), key("d", "y")]);
    let none: Vec<Cipher> = vec![];
    assert_eq!(none.len(), 0);
}

#[test]
fn takes_the_boundary_from_the_parameter_of_that_name() {
    let params = vec![(s("charset"), s("utf-8")), (s("Boundary"), s("----x")), (s("boundary"), s("y"))];
    assert_eq!(upload_boundary(&params), Ok(s("----x")));
    assert_eq!(upload_boundary(&vec![(s("boundary"), s("b"))]), Ok(s("b")));
}

#[test]
fn refuses_an_upload_that_names_no_boundary() {
    for params in [
        vec![],
        vec![(s("charset"), s("utf-8"))],
        vec![(s("boundary"), s(""))],
        vec![(s("boundaries"), s("x")), (s("bound"), s("y"))],
    ] {
        let failed = upload_boundary(&params);
        assert_eq!(failed, Err(Error::InvalidMultipart));
        assert_eq!(failed.unwrap_err().kind(), ErrorKind::InvalidInput);
    }
}

#[test]
fn an_upload_begins_for_the_owner_with_a_boundary_only() {
    let store = vault();
    let good = vec![(s("boundary"), s("x"))];
    let none = vec![(s("charset"), s("utf-8"))];
    assert_eq!(begin_upload(&store, &s("alice"), &s("c1"), &good), Ok(s("x")));
    assert_eq!(begin_upload(&store, &s("alice"), &s("c1"), &none), Err(Error::InvalidMultipart));
    // the right to the cipher is judged first
    assert_eq!(begin_upload(&store, &s("alice"), &s("c2"), &none), Err(Error::CipherNotOwned));
    assert_eq!(begin_upload(&store, &s("alice"), &s("zz"), &good), Err(Error::CipherNotFound));
    assert_eq!(store.attachments.len(), 3);
}

#[test]
fn names_match_but_for_the_case_of_ascii_letters() {
    assert!(names_match("BOUNDARY", "boundary"));
    assert!(names_match("", ""));
    assert!(!names_match("boundary ", "boundary"));
    assert!(!names_match("boundarz", "boundary"));
    assert!(!names_match("[", "{"));
}
