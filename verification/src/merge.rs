//! The cipher payload merger: builds the stored form of one cipher from what
//! the client submitted, by the cipher's type.
//!
//! The merge is one unit: every check is made before the target cipher is
//! touched, so a merge that fails leaves the cipher as it was. A merge that
//! succeeds leaves a cipher whose stored payload goes with its type.

use crate::casing::{copied_into, copy_values, lemma_normalized_distinct, normalized_into};
use crate::error::Error;
use crate::json::{distinct_keys, json_text, models, written_as_held, Json, JsonModel};
use crate::model::{copy_opt, opt_text, Cipher, CipherModel, Folder, FolderModel};
use crate::store::Store;
use crate::table::row_at;
use vstd::prelude::*;

verus! {

/// What a client submits for one cipher. Of the four typed payloads the one
/// that goes with `type_` is read: 1 login, 2 secure note, 3 card, 4 identity.
#[derive(Debug, PartialEq)]
pub struct CipherData {
    pub folder_id: Option<String>,
    pub organization_id: Option<String>,
    pub type_: i32,
    pub name: String,
    pub notes: Option<String>,
    pub fields: Option<Vec<Json>>,
    pub login: Option<Json>,
    pub secure_note: Option<Json>,
    pub card: Option<Json>,
    pub identity: Option<Json>,
    pub favorite: bool,
}

/// The value of a [`CipherData`].
pub struct CipherDataModel {
    pub folder_id: Option<Seq<char>>,
    pub organization_id: Option<Seq<char>>,
    pub type_: i32,
    pub name: Seq<char>,
    pub notes: Option<Seq<char>>,
    pub fields: Option<Seq<JsonModel>>,
    pub login: Option<JsonModel>,
    pub secure_note: Option<JsonModel>,
    pub card: Option<JsonModel>,
    pub identity: Option<JsonModel>,
    pub favorite: bool,
}

/// The value of an optional document.
pub open spec fn opt_model(doc: Option<Json>) -> Option<JsonModel> {
    match doc {
        Some(d) => Some(d@),
        None => None,
    }
}

impl View for CipherData {
    type V = CipherDataModel;

    open spec fn view(&self) -> CipherDataModel {
        CipherDataModel {
            folder_id: opt_text(self.folder_id),
            organization_id: opt_text(self.organization_id),
            type_: self.type_,
            name: self.name@,
            notes: opt_text(self.notes),
            fields: opt_models(self.fields),
            login: opt_model(self.login),
            secure_note: opt_model(self.secure_note),
            card: opt_model(self.card),
            identity: opt_model(self.identity),
            favorite: self.favorite,
        }
    }
}

impl CipherDataModel {
    /// The typed payload that goes with the discriminant.
    pub open spec fn payload(self) -> Option<JsonModel> {
        if self.type_ == 1 {
            self.login
        } else if self.type_ == 2 {
            self.secure_note
        } else if self.type_ == 3 {
            self.card
        } else if self.type_ == 4 {
            self.identity
        } else {
            None
        }
    }

    /// What is wrong with the typed payload, if anything.
    pub open spec fn payload_error(self) -> Option<Error> {
        if !(1 <= self.type_ <= 4) {
            Some(Error::InvalidType)
        } else if self.payload() is None {
            Some(Error::DataMissing)
        } else if !(self.payload()->Some_0 is Object) {
            Some(Error::DataInvalid)
        } else {
            None
        }
    }
}

/// A copy of a list of documents.
pub fn copy_list(list: &Vec<Json>) -> (r: Vec<Json>)
    ensures
        models(r@) == models(list@),
{
    let mut out: Vec<Json> = Vec::new();
    let mut i: usize = 0;
    while i < list.len()
        invariant
            i <= list.len(),
            out@.len() == i,
            forall|j: int| 0 <= j < i ==> out@[j]@ == list@[j]@,
        decreases list.len() - i,
    {
        out.push(list[i].clone());
        i += 1;
    }
    assert(models(out@) =~= models(list@));
    out
}

/// A copy of an optional document.
pub fn copy_doc(doc: &Option<Json>) -> (r: Option<Json>)
    ensures
        opt_model(r) == opt_model(*doc),
{
    match doc {
        Some(d) => Some(d.clone()),
        None => None,
    }
}

impl Clone for CipherData {
    fn clone(&self) -> (r: CipherData)
        ensures
            r@ == self@,
    {
        CipherData {
            folder_id: copy_opt(&self.folder_id),
            organization_id: copy_opt(&self.organization_id),
            type_: self.type_,
            name: self.name.clone(),
            notes: copy_opt(&self.notes),
            fields: match &self.fields {
                Some(list) => Some(copy_list(list)),
                None => None,
            },
            login: copy_doc(&self.login),
            secure_note: copy_doc(&self.secure_note),
            card: copy_doc(&self.card),
            identity: copy_doc(&self.identity),
            favorite: self.favorite,
        }
    }
}

/// What is wrong with a folder reference, if anything: the folder must exist
/// and belong to the user.
pub open spec fn folder_error(
    folders: Seq<FolderModel>,
    user: Seq<char>,
    folder_id: Option<Seq<char>>,
) -> Option<Error> {
    match folder_id {
        None => None,
        Some(id) => match row_at::<Folder>(folders, id) {
            None => Some(Error::FolderNotFound),
            Some(folder) => if folder.user_uuid != user {
                Some(Error::FolderNotOwned)
            } else {
                None
            },
        },
    }
}

/// Why a merge fails, if it does. The folder reference is judged first.
pub open spec fn merge_error(
    folders: Seq<FolderModel>,
    user: Seq<char>,
    data: CipherDataModel,
) -> Option<Error> {
    match folder_error(folders, user, data.folder_id) {
        Some(e) => Some(e),
        None => data.payload_error(),
    }
}

/// One custom field in canonical casing. An entry that is no object gives an
/// empty object.
pub open spec fn normalized_field(field: JsonModel) -> JsonModel {
    copied_into(JsonModel::Object(Seq::empty()), field)
}

/// The custom fields in canonical casing, in order.
pub open spec fn normalized_fields(fields: Seq<JsonModel>) -> Seq<JsonModel> {
    Seq::new(fields.len(), |i: int| normalized_field(fields[i]))
}

/// The values of an optional list of documents.
pub open spec fn opt_models(list: Option<Vec<Json>>) -> Option<Seq<JsonModel>> {
    match list {
        Some(items) => Some(models(items@)),
        None => None,
    }
}

/// The entries that every stored payload starts with: `Name`, `Notes`, which
/// is `null` without notes, and `Fields`, which is `null` without a
/// custom-fields list.
pub open spec fn base_entries(
    name: Seq<char>,
    notes: Option<Seq<char>>,
    fields: Option<Seq<JsonModel>>,
) -> Seq<(Seq<char>, JsonModel)> {
    seq![
        ("Name"@, JsonModel::Text(name)),
        (
            "Notes"@,
            match notes {
                Some(text) => JsonModel::Text(text),
                None => JsonModel::Null,
            },
        ),
        (
            "Fields"@,
            match fields {
                Some(list) => JsonModel::Array(normalized_fields(list)),
                None => JsonModel::Null,
            },
        ),
    ]
}

/// The base entries name each key once.
pub proof fn lemma_base_distinct(
    name: Seq<char>,
    notes: Option<Seq<char>>,
    fields: Option<Seq<JsonModel>>,
)
    ensures
        distinct_keys(base_entries(name, notes, fields)),
{
    reveal_strlit("Name");
    reveal_strlit("Notes");
    reveal_strlit("Fields");
    assert("Name"@.len() == 4);
    assert("Notes"@.len() == 5);
    assert("Fields"@.len() == 6);
}

/// The stored payload: the base entries, then the fields of the typed payload
/// under their canonical names, which overwrite a base entry of the same name.
pub open spec fn envelope(data: CipherDataModel, payload: JsonModel) -> JsonModel {
    JsonModel::Object(
        normalized_into(base_entries(data.name, data.notes, data.fields), payload.entries()),
    )
}

/// The cipher after a merge that succeeds. The type, the name, the notes, the
/// custom fields and the stored payload are replaced by what was submitted:
/// notes and custom fields that the client left out are gone. A folder or an
/// organization that the client left out stays as it was.
pub open spec fn merged(cipher: CipherModel, data: CipherDataModel) -> CipherModel {
    CipherModel {
        folder_uuid: if data.folder_id is Some {
            data.folder_id
        } else {
            cipher.folder_uuid
        },
        organization_uuid: if data.organization_id is Some {
            data.organization_id
        } else {
            cipher.organization_uuid
        },
        type_: data.type_,
        name: data.name,
        notes: data.notes,
        fields: match data.fields {
            Some(fields) => Some(json_text(JsonModel::Array(fields))),
            None => None,
        },
        data: json_text(envelope(data, data.payload()->Some_0)),
        ..cipher
    }
}

/// Checks a folder reference: the folder must exist and belong to the user.
pub fn check_folder(store: &Store, user_uuid: &String, folder_id: &Option<String>) -> (result:
    Result<(), Error>)
    ensures
        result == match folder_error(store.folders@, user_uuid@, opt_text(*folder_id)) {
            Some(e) => Err::<(), Error>(e),
            None => Ok(()),
        },
{
    match folder_id {
        Some(id) => match store.folders.find(id) {
            Some(folder) => {
                if folder.user_uuid == *user_uuid {
                    Ok(())
                } else {
                    Err(Error::FolderNotOwned)
                }
            },
            None => Err(Error::FolderNotFound),
        },
        None => Ok(()),
    }
}

/// The custom fields in canonical casing.
pub fn normalize_fields(fields: &Vec<Json>) -> (out: Vec<Json>)
    ensures
        models(out@) == normalized_fields(models(fields@)),
{
    let mut out: Vec<Json> = Vec::new();
    let mut i: usize = 0;
    while i < fields.len()
        invariant
            i <= fields.len(),
            out@.len() == i,
            forall|j: int| 0 <= j < i ==> out@[j]@ == normalized_field(fields@[j]@),
        decreases fields.len() - i,
    {
        let mut value = Json::empty_object();
        let _ = copy_values(&fields[i], &mut value);
        out.push(value);
        i += 1;
    }
    assert(models(out@) =~= normalized_fields(models(fields@)));
    out
}

/// Builds the stored payload of a cipher from the submitted name, notes and
/// custom fields and from the typed payload. A payload that is no object adds
/// nothing to the base entries.
pub fn build_envelope(
    name: &String,
    notes: &Option<String>,
    fields: &Option<Vec<Json>>,
    payload: &Json,
) -> (doc: Json)
    ensures
        doc@ == JsonModel::Object(
            normalized_into(
                base_entries(name@, opt_text(*notes), opt_models(*fields)),
                payload@.entries(),
            ),
        ),
        distinct_keys(doc@.entries()),
{
    let fields_doc = match fields {
        Some(list) => Json::array(normalize_fields(list)),
        None => Json::Null,
    };
    let mut entries: Vec<(String, Json)> = Vec::new();
    entries.push((String::from_str("Name"), Json::Text(name.clone())));
    entries.push((String::from_str("Notes"), Json::text_or_null(copy_opt(notes))));
    entries.push((String::from_str("Fields"), fields_doc));
    let mut doc = Json::Object(entries);
    let ghost base = doc@.entries();
    proof {
        crate::json::lemma_view_parts(doc);
        assert(base =~= base_entries(name@, opt_text(*notes), opt_models(*fields)));
        lemma_base_distinct(name@, opt_text(*notes), opt_models(*fields));
        lemma_normalized_distinct(base, payload@.entries());
    }
    let _ = copy_values(payload, &mut doc);
    proof {
        if payload@.entries().len() == 0 {
            assert(normalized_into(base, payload@.entries()) == base);
        }
    }
    doc
}

/// Merges what the client submitted into the cipher: checks the folder
/// reference and the typed payload, then sets folder and organization where
/// they were submitted, and replaces type, name, notes, custom fields and the
/// stored payload. Nothing is saved. A merge that fails
/// leaves the cipher as it was. The envelope names each key once, and the
/// stored payload is the text of a document that has the envelope's keys
/// and, under each, what is written for the envelope's value.
pub fn update_cipher_from_data(
    cipher: &mut Cipher,
    data: CipherData,
    user_uuid: &String,
    store: &Store,
) -> (result: Result<(), Error>)
    ensures
        result == match merge_error(store.folders@, user_uuid@, data@) {
            Some(e) => Err::<(), Error>(e),
            None => Ok(()),
        },
        final(cipher)@ == if result is Ok {
            merged(old(cipher)@, data@)
        } else {
            old(cipher)@
        },
        result is Ok ==> distinct_keys(envelope(data@, data@.payload()->Some_0).entries())
            && written_as_held(envelope(data@, data@.payload()->Some_0)),
{
    let ghost submitted = data@;
    let CipherData {
        folder_id,
        organization_id,
        type_,
        name,
        notes,
        fields,
        login,
        secure_note,
        card,
        identity,
        favorite: _,
    } = data;
    match check_folder(store, user_uuid, &folder_id) {
        Err(e) => {
            return Err(e);
        },
        Ok(()) => {},
    }
    let selected = if type_ == 1 {
        login
    } else if type_ == 2 {
        secure_note
    } else if type_ == 3 {
        card
    } else if type_ == 4 {
        identity
    } else {
        return Err(Error::InvalidType);
    };
    let payload = match selected {
        Some(payload) => payload,
        None => {
            return Err(Error::DataMissing);
        },
    };
    if !payload.is_object() {
        return Err(Error::DataInvalid);
    }
    let values = build_envelope(&name, &notes, &fields, &payload);
    assert(values@ == envelope(submitted, payload@));
    if folder_id.is_some() {
        cipher.folder_uuid = folder_id;
    }
    if organization_id.is_some() {
        cipher.organization_uuid = organization_id;
    }
    cipher.type_ = type_;
    cipher.name = name;
    cipher.notes = notes;
    cipher.fields = match fields {
        Some(list) => Some(Json::array(list).to_text()),
        None => None,
    };
    cipher.data = values.to_text();
    Ok(())
}

} // verus!
