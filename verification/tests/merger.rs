use cipher_vault::error::{Error, ErrorKind};
use cipher_vault::json::Json;
use cipher_vault::merge::{
    build_envelope, check_folder, normalize_fields, update_cipher_from_data, CipherData,
};
use cipher_vault::model::{Cipher, Folder};
use cipher_vault::store::Store;

fn s(text: &str) -> String {
    text.to_string()
}

fn text(value: &str) -> Json {
    Json::Text(value.to_string())
}

fn number(n: u64) -> Json {
    Json::Number(serde_json::Number::from(n))
}

fn object(entries: Vec<(&str, Json)>) -> Json {
    Json::Object(entries.into_iter().map(|(k, v)| (k.to_string(), v)).collect())
}

fn blank(type_: i32) -> CipherData {
    CipherData {
        folder_id: None,
        organization_id: None,
        type_,
        name: s("item"),
        notes: None,
        fields: None,
        login: None,
        secure_note: None,
        card: None,
        identity: None,
        favorite: false,
    }
}

fn with_payload(type_: i32, payload: Json) -> CipherData {
    let mut data = blank(type_);
    match type_ {
        1 => data.login = Some(payload),
        2 => data.secure_note = Some(payload),
        3 => data.card = Some(payload),
        _ => data.identity = Some(payload),
    }
    data
}

fn fresh(type_: i32) -> Cipher {
    Cipher::new(s("c1"), s("alice"), type_, s("item"), false)
}

fn keys_of_stored(cipher: &Cipher) -> Vec<String> {
    let parsed: serde_json::Value = serde_json::from_str(&cipher.data).unwrap();
    parsed.as_object().unwrap().keys().cloned().collect()
}

#[test]
fn stores_name_notes_fields_and_the_payload_keys_for_each_type() {
    let payloads = vec![
        (1, object(vec![("username", text("a")), ("password", text("b"))]), vec!["Password", "Username"]),
        (2, object(vec![("type", number(0))]), vec!["Type"]),
        (3, object(vec![("cardholderName", text("A B")), ("code", text("123"))]), vec!["CardholderName", "Code"]),
        (4, object(vec![("firstName", text("A")), ("ssn", Json::Null)]), vec!["FirstName", "Ssn"]),
    ];
    for (type_, payload, extra) in payloads {
        let store = Store::new();
        let mut cipher = fresh(type_);
        let result = update_cipher_from_data(&mut cipher, with_payload(type_, payload), &s("alice"), &store);
        assert_eq!(result, Ok(()));
        let mut expected: Vec<String> = vec![s("Fields"), s("Name"), s("Notes")];
        expected.extend(extra.into_iter().map(s));
        expected.sort();
        let mut found = keys_of_stored(&cipher);
        found.sort();
        assert_eq!(found, expected);
    }
}

#[test]
fn writes_the_stored_payload_as_compact_json() {
    let store = Store::new();
    let mut cipher = fresh(1);
    let mut data = with_payload(1, object(vec![("username", text("a")), ("uris", Json::Array(vec![object(vec![("uri", text("https://x"))])]))]));
    data.notes = Some(s("remember"));
    assert_eq!(update_cipher_from_data(&mut cipher, data, &s("alice"), &store), Ok(()));
    assert_eq!(
        cipher.data,
        "{\"Fields\":null,\"Name\":\"item\",\"Notes\":\"remember\",\"Uris\":[{\"uri\":\"https://x\"}],\"Username\":\"a\"}"
    );
    assert_eq!(cipher.notes, Some(s("remember")));
    assert_eq!(cipher.fields, None);
    assert_eq!(cipher.folder_uuid, None);
}

#[test]
fn normalizes_custom_fields_and_keeps_their_submitted_text() {
    let store = Store::new();
    let mut cipher = fresh(2);
    let mut data = with_payload(2, object(vec![("type", number(0))]));
    data.fields = Some(vec![
        object(vec![("name", text("pin")), ("value", text("1234")), ("type", number(1))]),
        text("odd"),
    ]);
    assert_eq!(update_cipher_from_data(&mut cipher, data, &s("alice"), &store), Ok(()));
    assert_eq!(
        cipher.data,
        "{\"Fields\":[{\"Name\":\"pin\",\"Type\":1,\"Value\":\"1234\"},{}],\"Name\":\"item\",\"Notes\":null,\"Type\":0}"
    );
    assert_eq!(
        cipher.fields,
        Some(s("[{\"name\":\"pin\",\"type\":1,\"value\":\"1234\"},\"odd\"]"))
    );
}

#[test]
fn payload_fields_overwrite_the_base_entries_of_the_same_name() {
    let doc = build_envelope(
        &s("outer"),
        &Some(s("kept")),
        &None,
        &object(vec![("name", text("inner")), ("Name", text("last")), ("x", Json::Bool(true))]),
    );
    assert_eq!(
        doc,
        object(vec![
            ("Name", text("last")),
            ("Notes", text("kept")),
            ("Fields", Json::Null),
            ("X", Json::Bool(true)),
        ])
    );
    assert_eq!(doc.to_text(), "{\"Fields\":null,\"Name\":\"last\",\"Notes\":\"kept\",\"X\":true}");
}

#[test]
fn normalize_fields_gives_an_empty_object_for_an_entry_that_is_none() {
    let out = normalize_fields(&vec![Json::Null, object(vec![("a", Json::Null)]), Json::Array(vec![])]);
    assert_eq!(out, vec![Json::empty_object(), object(vec![("A", Json::Null)]), Json::empty_object()]);
}

#[test]
fn rejects_a_type_outside_one_to_four() {
    for type_ in [0, 5, -1, 100, i32::MIN, i32::MAX] {
        let store = Store::new();
        let mut cipher = fresh(type_);
        let before = cipher.clone();
        let mut data = blank(type_);
        data.login = Some(object(vec![("username", text("a"))]));
        data.notes = Some(s("n"));
        let result = update_cipher_from_data(&mut cipher, data, &s("alice"), &store);
        assert_eq!(result, Err(Error::InvalidType));
        assert_eq!(Error::InvalidType.kind(), ErrorKind::InvalidInput);
        assert_eq!(cipher, before);
    }
}

#[test]
fn rejects_a_type_whose_payload_is_absent() {
    for type_ in 1..=4 {
        let store = Store::new();
        let mut cipher = fresh(type_);
        let before = cipher.clone();
        // a payload of another type does not help
        let other = if type_ == 1 { 2 } else { 1 };
        let data = with_payload(other, object(vec![("a", Json::Null)]));
        let data = CipherData { type_, ..data };
        let result = update_cipher_from_data(&mut cipher, data, &s("alice"), &store);
        assert_eq!(result, Err(Error::DataMissing));
        assert_eq!(Error::DataMissing.kind(), ErrorKind::InvalidInput);
        assert_eq!(Error::DataMissing.message(), "Data missing");
        assert_eq!(cipher, before);
    }
}

#[test]
fn rejects_a_payload_that_is_no_object() {
    for payload in [text("x"), Json::Array(vec![]), Json::Null, Json::Bool(true), number(3)] {
        let store = Store::new();
        let mut cipher = fresh(3);
        let before = cipher.clone();
        let result = update_cipher_from_data(&mut cipher, with_payload(3, payload), &s("alice"), &store);
        assert_eq!(result, Err(Error::DataInvalid));
        assert_eq!(cipher, before);
    }
}

#[test]
fn accepts_an_empty_payload_object() {
    let store = Store::new();
    let mut cipher = fresh(2);
    let result = update_cipher_from_data(&mut cipher, with_payload(2, Json::empty_object()), &s("alice"), &store);
    assert_eq!(result, Ok(()));
    assert_eq!(cipher.data, "{\"Fields\":null,\"Name\":\"item\",\"Notes\":null}");
}

#[test]
fn validates_the_folder_reference() {
    let mut store = Store::new();
    store.folders.save(Folder::new(s("f-alice"), s("alice"), s("mine")));
    store.folders.save(Folder::new(s("f-bob"), s("bob"), s("his")));

    let mut cipher = fresh(1);
    let before = cipher.clone();

    let mut data = with_payload(1, object(vec![("username", text("a"))]));
    data.folder_id = Some(s("f-bob"));
    assert_eq!(update_cipher_from_data(&mut cipher, data, &s("alice"), &store), Err(Error::FolderNotOwned));
    assert_eq!(Error::FolderNotOwned.kind(), ErrorKind::NotOwned);
    assert_eq!(cipher, before);

    let mut data = with_payload(1, object(vec![("username", text("a"))]));
    data.folder_id = Some(s("nowhere"));
    assert_eq!(update_cipher_from_data(&mut cipher, data, &s("alice"), &store), Err(Error::FolderNotFound));
    assert_eq!(Error::FolderNotFound.kind(), ErrorKind::NotFound);
    assert_eq!(cipher, before);

    let mut data = with_payload(1, object(vec![("username", text("a"))]));
    data.folder_id = Some(s("f-alice"));
    data.organization_id = Some(s("org"));
    assert_eq!(update_cipher_from_data(&mut cipher, data, &s("alice"), &store), Ok(()));
    assert_eq!(cipher.folder_uuid, Some(s("f-alice")));
    assert_eq!(cipher.organization_uuid, Some(s("org")));
}

#[test]
fn judges_the_folder_before_the_type() {
    let store = Store::new();
    let mut cipher = fresh(9);
    let mut data = blank(9);
    data.folder_id = Some(s("nowhere"));
    assert_eq!(update_cipher_from_data(&mut cipher, data, &s("alice"), &store), Err(Error::FolderNotFound));
}

#[test]
fn replaces_notes_and_fields_and_keeps_folder_and_organization() {
    let store = Store::new();
    let mut cipher = fresh(1);
    cipher.folder_uuid = Some(s("f"));
    cipher.organization_uuid = Some(s("o"));
    cipher.notes = Some(s("old notes"));
    cipher.fields = Some(s("[]"));
    let data = with_payload(1, object(vec![("username", text("a"))]));
    assert_eq!(update_cipher_from_data(&mut cipher, data, &s("alice"), &store), Ok(()));
    // what the client left out of folder and organization stays
    assert_eq!(cipher.folder_uuid, Some(s("f")));
    assert_eq!(cipher.organization_uuid, Some(s("o")));
    // notes and custom fields are replaced, here by none, as the payload says
    assert_eq!(cipher.notes, None);
    assert_eq!(cipher.fields, None);
    assert_eq!(cipher.data, "{\"Fields\":null,\"Name\":\"item\",\"Notes\":null,\"Username\":\"a\"}");
}

#[test]
fn the_type_and_the_name_follow_the_request() {
    let store = Store::new();
    let mut cipher = fresh(1);
    let mut data = with_payload(3, object(vec![("code", text("123"))]));
    data.name = s("my card");
    assert_eq!(update_cipher_from_data(&mut cipher, data, &s("alice"), &store), Ok(()));
    assert_eq!(cipher.type_, 3);
    assert_eq!(cipher.name, "my card");
    assert_eq!(cipher.data, "{\"Code\":\"123\",\"Fields\":null,\"Name\":\"my card\",\"Notes\":null}");
    assert_eq!(cipher.uuid, "c1");
    assert_eq!(cipher.user_uuid, "alice");
}

#[test]
fn check_folder_accepts_no_reference() {
    let store = Store::new();
    assert_eq!(check_folder(&store, &s("alice"), &None), Ok(()));
    assert_eq!(check_folder(&store, &s("alice"), &Some(s("f"))), Err(Error::FolderNotFound));
}
