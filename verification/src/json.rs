//! JSON documents as the vault holds them: a document type of the library's
//! own, its mathematical value, and the compact text that `serde_json` writes
//! for it.
//!
//! An object is a sequence of entries that names each key once
//! (`distinct_keys`). Documents that come out of a JSON parser do so, and
//! `put`, which replaces the entry of a key that is already there and appends
//! one for a key that is new, keeps it so. What is said of the text of an
//! object is said of objects that name each key once.
//!
//! A document is written out by `serde_json`: the library builds the
//! `serde_json::Value` that holds the document, piece by piece, and has it
//! written. What `serde_json` does is taken on trust and given names:
//! `value_doc` for what a value holds, `collected` for the entries that a map
//! yields, `doc_text` for the text written.

use vstd::prelude::*;

verus! {

/// A JSON number of `serde_json`. The vault never reads a number; it carries
/// it through from the client to the stored payload.
#[verifier::external_type_specification]
#[verifier::external_body]
pub struct ExNumber(serde_json::Number);

/// A JSON value of `serde_json`, the form in which a document is written out.
#[verifier::external_type_specification]
#[verifier::external_body]
pub struct ExValue(serde_json::Value);

/// A JSON document.
#[derive(Debug, PartialEq)]
pub enum Json {
    Null,
    Bool(bool),
    Number(serde_json::Number),
    Text(String),
    Array(Vec<Json>),
    Object(Vec<(String, Json)>),
}

/// The mathematical value of a [`Json`] document.
pub enum JsonModel {
    Null,
    Bool(bool),
    Number(serde_json::Number),
    Text(Seq<char>),
    Array(Seq<JsonModel>),
    Object(Seq<(Seq<char>, JsonModel)>),
}

impl View for Json {
    type V = JsonModel;

    open spec fn view(&self) -> JsonModel
        decreases self,
    {
        match self {
            Json::Null => JsonModel::Null,
            Json::Bool(b) => JsonModel::Bool(*b),
            Json::Number(n) => JsonModel::Number(*n),
            Json::Text(s) => JsonModel::Text(s@),
            Json::Array(items) => JsonModel::Array(
                Seq::new(
                    items@.len(),
                    |i: int|
                        if 0 <= i < items@.len() {
                            items@[i].view()
                        } else {
                            JsonModel::Null
                        },
                ),
            ),
            Json::Object(entries) => JsonModel::Object(
                Seq::new(
                    entries@.len(),
                    |i: int|
                        (
                            entries@[i].0@,
                            if 0 <= i < entries@.len() {
                                entries@[i].1.view()
                            } else {
                                JsonModel::Null
                            },
                        ),
                ),
            ),
        }
    }
}

/// The values of a list of documents, in order.
pub open spec fn models(items: Seq<Json>) -> Seq<JsonModel> {
    Seq::new(items.len(), |i: int| items[i]@)
}

/// The values of a list of entries, in order.
pub open spec fn entry_models(entries: Seq<(String, Json)>) -> Seq<(Seq<char>, JsonModel)> {
    Seq::new(entries.len(), |i: int| (entries[i].0@, entries[i].1@))
}

/// The value of an object is made of the values of its entries, and that of
/// an array of the values of its items.
pub proof fn lemma_view_parts(doc: Json)
    ensures
        doc matches Json::Object(entries) ==> doc@ == JsonModel::Object(entry_models(entries@)),
        doc matches Json::Array(items) ==> doc@ == JsonModel::Array(models(items@)),
{
    match doc {
        Json::Object(entries) => {
            assert(doc@->Object_0 =~= entry_models(entries@));
        },
        Json::Array(items) => {
            assert(doc@->Array_0 =~= models(items@));
        },
        _ => {},
    }
}

/// Whether some entry has the key.
pub open spec fn has_key(entries: Seq<(Seq<char>, JsonModel)>, key: Seq<char>) -> bool {
    exists|i: int| 0 <= i < entries.len() && (#[trigger] entries[i]).0 == key
}

/// Whether `i` is the position of the first entry with the key.
pub open spec fn is_first(entries: Seq<(Seq<char>, JsonModel)>, key: Seq<char>, i: int) -> bool {
    &&& 0 <= i < entries.len()
    &&& entries[i].0 == key
    &&& forall|j: int| 0 <= j < i ==> (#[trigger] entries[j]).0 != key
}

/// The position of the first entry with the key, where there is one.
pub open spec fn first_index(entries: Seq<(Seq<char>, JsonModel)>, key: Seq<char>) -> int {
    choose|i: int| is_first(entries, key, i)
}

/// The value under a key: that of the first entry with the key.
pub open spec fn value_at(entries: Seq<(Seq<char>, JsonModel)>, key: Seq<char>) -> Option<
    JsonModel,
> {
    if has_key(entries, key) {
        Some(entries[first_index(entries, key)].1)
    } else {
        None
    }
}

/// The entries after `key` is set to `value`: the first entry with the key is
/// replaced where it stands, and a new key is appended.
pub open spec fn with_entry(
    entries: Seq<(Seq<char>, JsonModel)>,
    key: Seq<char>,
    value: JsonModel,
) -> Seq<(Seq<char>, JsonModel)> {
    if has_key(entries, key) {
        entries.update(first_index(entries, key), (key, value))
    } else {
        entries.push((key, value))
    }
}

/// The set of keys of a list of entries.
pub open spec fn key_set(entries: Seq<(Seq<char>, JsonModel)>) -> Set<Seq<char>> {
    Set::new(|k: Seq<char>| has_key(entries, k))
}

/// Whether no key occurs twice.
pub open spec fn distinct_keys(entries: Seq<(Seq<char>, JsonModel)>) -> bool {
    forall|i: int, j: int|
        0 <= i < j < entries.len() ==> (#[trigger] entries[i]).0 != (#[trigger] entries[j]).0
}

/// Whether two lists of entries hold the same value under every key.
pub open spec fn same_values(
    a: Seq<(Seq<char>, JsonModel)>,
    b: Seq<(Seq<char>, JsonModel)>,
) -> bool {
    forall|k: Seq<char>| #[trigger] value_at(a, k) == value_at(b, k)
}

impl JsonModel {
    /// The entries that a document offers to `put`: those of an object, and
    /// none for `null`, which stands for an object not yet begun.
    pub open spec fn entries(self) -> Seq<(Seq<char>, JsonModel)> {
        match self {
            JsonModel::Object(entries) => entries,
            _ => Seq::empty(),
        }
    }
}

/// Two lists of entries with the same keys at the same positions have the
/// same set of keys.
pub proof fn lemma_same_keys(a: Seq<(Seq<char>, JsonModel)>, b: Seq<(Seq<char>, JsonModel)>)
    requires
        a.len() == b.len(),
        forall|i: int| 0 <= i < a.len() ==> (#[trigger] a[i]).0 == b[i].0,
    ensures
        key_set(a) == key_set(b),
{
    assert forall|k: Seq<char>| has_key(a, k) <==> has_key(b, k) by {
        if has_key(a, k) {
            let i = choose|i: int| 0 <= i < a.len() && (#[trigger] a[i]).0 == k;
            assert(b[i].0 == k);
        }
        if has_key(b, k) {
            let i = choose|i: int| 0 <= i < b.len() && (#[trigger] b[i]).0 == k;
            assert(a[i].0 == k);
        }
    }
    assert(key_set(a) =~= key_set(b));
}

/// The first entry with a key is the only position that `is_first` accepts.
pub proof fn lemma_first_index(entries: Seq<(Seq<char>, JsonModel)>, key: Seq<char>, i: int)
    requires
        is_first(entries, key, i),
    ensures
        has_key(entries, key),
        first_index(entries, key) == i,
{
    let c = first_index(entries, key);
    assert(is_first(entries, key, c));
    if c < i {
        assert(entries[c].0 != key);
    }
    if i < c {
        assert(entries[i].0 != key);
    }
}

/// Where a key occurs, its first position exists.
pub proof fn lemma_has_first(entries: Seq<(Seq<char>, JsonModel)>, key: Seq<char>)
    requires
        has_key(entries, key),
    ensures
        is_first(entries, key, first_index(entries, key)),
{
    let w = choose|i: int| 0 <= i < entries.len() && (#[trigger] entries[i]).0 == key;
    lemma_first_below(entries, key, w);
}

proof fn lemma_first_below(entries: Seq<(Seq<char>, JsonModel)>, key: Seq<char>, w: int)
    requires
        0 <= w < entries.len(),
        entries[w].0 == key,
    ensures
        is_first(entries, key, first_index(entries, key)),
    decreases w,
{
    if forall|j: int| 0 <= j < w ==> (#[trigger] entries[j]).0 != key {
        assert(is_first(entries, key, w));
    } else {
        let j = choose|j: int| 0 <= j < w && (#[trigger] entries[j]).0 == key;
        lemma_first_below(entries, key, j);
    }
}

/// Setting a key adds it to the keys and takes none away.
pub proof fn lemma_with_entry_keys(
    entries: Seq<(Seq<char>, JsonModel)>,
    key: Seq<char>,
    value: JsonModel,
)
    ensures
        key_set(with_entry(entries, key, value)) == key_set(entries).insert(key),
        value_at(with_entry(entries, key, value), key) == Some(value),
        distinct_keys(entries) ==> distinct_keys(with_entry(entries, key, value)),
{
    let after = with_entry(entries, key, value);
    if has_key(entries, key) {
        lemma_has_first(entries, key);
        let p = first_index(entries, key);
        assert(is_first(after, key, p)) by {
            assert forall|j: int| 0 <= j < p implies (#[trigger] after[j]).0 != key by {
                assert(entries[j].0 != key);
            }
        }
        lemma_first_index(after, key, p);
        assert forall|k: Seq<char>| has_key(after, k) <==> (has_key(entries, k) || k == key) by {
            if has_key(after, k) {
                let i = choose|i: int| 0 <= i < after.len() && (#[trigger] after[i]).0 == k;
                assert(entries[i].0 == k);
            }
            if has_key(entries, k) {
                let i = choose|i: int| 0 <= i < entries.len() && (#[trigger] entries[i]).0 == k;
                assert(after[i].0 == k);
            }
        }
        if distinct_keys(entries) {
            assert forall|i: int, j: int| 0 <= i < j < after.len() implies (#[trigger] after[i]).0
                != (#[trigger] after[j]).0 by {
                assert(entries[i].0 != entries[j].0);
            }
        }
    } else {
        let p = entries.len() as int;
        assert(after[p].0 == key);
        assert(is_first(after, key, p)) by {
            assert forall|j: int| 0 <= j < p implies (#[trigger] after[j]).0 != key by {
                assert(entries[j].0 == after[j].0);
            }
        }
        lemma_first_index(after, key, p);
        assert forall|k: Seq<char>| has_key(after, k) <==> (has_key(entries, k) || k == key) by {
            if has_key(after, k) {
                let i = choose|i: int| 0 <= i < after.len() && (#[trigger] after[i]).0 == k;
                if i < p {
                    assert(entries[i].0 == k);
                }
            }
            if has_key(entries, k) {
                let i = choose|i: int| 0 <= i < entries.len() && (#[trigger] entries[i]).0 == k;
                assert(after[i].0 == k);
            }
        }
        if distinct_keys(entries) {
            assert forall|i: int, j: int| 0 <= i < j < after.len() implies (#[trigger] after[i]).0
                != (#[trigger] after[j]).0 by {
                if j < p {
                    assert(entries[i].0 != entries[j].0);
                } else {
                    assert(entries[i].0 == after[i].0);
                }
            }
        }
    }
    assert(key_set(after) =~= key_set(entries).insert(key));
}

/// Calls `Clone::clone` of `serde_json::Number`: the copy is the same
/// number.
#[verifier::external_body]
fn copy_number(n: &serde_json::Number) -> (r: serde_json::Number)
    ensures
        r == *n,
{
    n.clone()
}

impl Clone for Json {
    /// A deep copy: the same document.
    fn clone(&self) -> (r: Json)
        ensures
            r@ == self@,
        decreases self,
    {
        match self {
            Json::Null => Json::Null,
            Json::Bool(b) => Json::Bool(*b),
            Json::Number(n) => Json::Number(copy_number(n)),
            Json::Text(s) => Json::Text(s.clone()),
            Json::Array(items) => {
                let mut out: Vec<Json> = Vec::new();
                let mut i: usize = 0;
                while i < items.len()
                    invariant
                        *self == Json::Array(*items),
                        i <= items.len(),
                        out@.len() == i,
                        forall|j: int| 0 <= j < i ==> out@[j]@ == items@[j]@,
                    decreases items.len() - i,
                {
                    assert(decreases_to!(*self => self->Array_0));
                    out.push(items[i].clone());
                    i += 1;
                }
                let r = Json::Array(out);
                assert(r@->Array_0 =~= self@->Array_0);
                r
            },
            Json::Object(entries) => {
                let mut out: Vec<(String, Json)> = Vec::new();
                let mut i: usize = 0;
                while i < entries.len()
                    invariant
                        *self == Json::Object(*entries),
                        i <= entries.len(),
                        out@.len() == i,
                        forall|j: int|
                            0 <= j < i ==> out@[j].0@ == entries@[j].0@ && out@[j].1@
                                == entries@[j].1@,
                    decreases entries.len() - i,
                {
                    assert(decreases_to!(*self => self->Object_0));
                    out.push((entries[i].0.clone(), entries[i].1.clone()));
                    i += 1;
                }
                let r = Json::Object(out);
                assert(r@->Object_0 =~= self@->Object_0);
                r
            },
        }
    }
}

/// What a `serde_json::Value` holds, as a document: variant for variant, the
/// items of an array in order, the entries of an object in the order in which
/// its map yields them.
pub uninterp spec fn value_doc(v: serde_json::Value) -> JsonModel;

/// The entries that a `serde_json` map yields once the given entries were
/// put into it in order. The map keeps one entry for each key; where the
/// entries name each key once, it keeps each key's value.
pub uninterp spec fn collected(entries: Seq<(Seq<char>, JsonModel)>) -> Seq<(Seq<char>, JsonModel)>;

/// The text that the `Display` impl of `serde_json::Value` writes for a value
/// that holds the given document: compact JSON.
pub uninterp spec fn doc_text(doc: JsonModel) -> Seq<char>;

/// What each of a list of values holds, in order.
pub open spec fn value_docs(values: Seq<serde_json::Value>) -> Seq<JsonModel> {
    Seq::new(values.len(), |i: int| value_doc(values[i]))
}

/// The key and what the value holds, for each of a list of entries, in order.
pub open spec fn entry_docs(entries: Seq<(String, serde_json::Value)>) -> Seq<
    (Seq<char>, JsonModel),
> {
    Seq::new(entries.len(), |i: int| (entries[i].0@, value_doc(entries[i].1)))
}

/// The document as a `serde_json::Value` holds it: at every level the
/// entries of an object are those that the map yields.
pub open spec fn canonical(doc: JsonModel) -> JsonModel
    decreases doc,
{
    match doc {
        JsonModel::Array(items) => JsonModel::Array(canonical_items(items)),
        JsonModel::Object(entries) => JsonModel::Object(collected(canonical_entries(entries))),
        _ => doc,
    }
}

/// Each of the documents as a value holds it.
pub open spec fn canonical_items(items: Seq<JsonModel>) -> Seq<JsonModel>
    decreases items,
{
    Seq::new(
        items.len(),
        |i: int|
            if 0 <= i < items.len() {
                canonical(items[i])
            } else {
                JsonModel::Null
            },
    )
}

/// Each of the entries with its document as a value holds it.
pub open spec fn canonical_entries(entries: Seq<(Seq<char>, JsonModel)>) -> Seq<
    (Seq<char>, JsonModel),
>
    decreases entries,
{
    Seq::new(
        entries.len(),
        |i: int|
            (
                entries[i].0,
                if 0 <= i < entries.len() {
                    canonical(entries[i].1)
                } else {
                    JsonModel::Null
                },
            ),
    )
}

/// The compact JSON text of a document: the text that `serde_json` writes for
/// the value that holds it.
pub open spec fn json_text(doc: JsonModel) -> Seq<char> {
    doc_text(canonical(doc))
}

/// Builds `serde_json::Value::Null`, which holds `null`.
#[verifier::external_body]
fn null_value() -> (v: serde_json::Value)
    ensures
        value_doc(v) == JsonModel::Null,
{
    serde_json::Value::Null
}

/// Builds `serde_json::Value::Bool`, which holds the given truth value.
#[verifier::external_body]
fn bool_value(b: bool) -> (v: serde_json::Value)
    ensures
        value_doc(v) == JsonModel::Bool(b),
{
    serde_json::Value::Bool(b)
}

/// Builds `serde_json::Value::Number`, which holds the given number.
#[verifier::external_body]
fn number_value(n: serde_json::Number) -> (v: serde_json::Value)
    ensures
        value_doc(v) == JsonModel::Number(n),
{
    serde_json::Value::Number(n)
}

/// Builds `serde_json::Value::String`, which holds the given text.
#[verifier::external_body]
fn text_value(s: String) -> (v: serde_json::Value)
    ensures
        value_doc(v) == JsonModel::Text(s@),
{
    serde_json::Value::String(s)
}

/// Builds `serde_json::Value::Array`, which holds what the given values hold,
/// in order.
#[verifier::external_body]
fn array_value(items: Vec<serde_json::Value>) -> (v: serde_json::Value)
    ensures
        value_doc(v) == JsonModel::Array(value_docs(items@)),
{
    serde_json::Value::Array(items)
}

/// Builds `serde_json::Value::Object` of the map that
/// `serde_json::Map::from_iter` makes of the given entries, which puts them
/// into the map in order. The value holds the entries that the map yields.
/// The map has one entry for each key put into it and for no other; where
/// each key was put into it once, it holds under each key the value put.
#[verifier::external_body]
fn object_value(entries: Vec<(String, serde_json::Value)>) -> (v: serde_json::Value)
    ensures
        value_doc(v) == JsonModel::Object(collected(entry_docs(entries@))),
        key_set(value_doc(v).entries()) == key_set(entry_docs(entries@)),
        distinct_keys(value_doc(v).entries()),
        distinct_keys(entry_docs(entries@)) ==> same_values(
            value_doc(v).entries(),
            entry_docs(entries@),
        ),
{
    serde_json::Value::Object(serde_json::Map::from_iter(entries))
}

/// Calls `to_string` on a `serde_json::Value`, which writes it through its
/// `Display` impl: the text is that of the document that the value holds.
#[verifier::external_body]
fn write_value(v: &serde_json::Value) -> (text: String)
    ensures
        text@ == doc_text(value_doc(*v)),
{
    v.to_string()
}

/// Whether the document that is written for an object has the object's
/// keys, each once, and, where the object names each key once, under each key
/// what is written for the object's value.
pub open spec fn written_as_held(doc: JsonModel) -> bool {
    doc is Object ==> {
        &&& key_set(canonical(doc).entries()) == key_set(doc.entries())
        &&& distinct_keys(canonical(doc).entries())
        &&& distinct_keys(doc.entries()) ==> same_values(
            canonical(doc).entries(),
            canonical_entries(doc.entries()),
        )
    }
}

/// The `serde_json::Value` that holds what the document holds.
fn to_value(doc: &Json) -> (v: serde_json::Value)
    ensures
        value_doc(v) == canonical(doc@),
        written_as_held(doc@),
    decreases doc,
{
    proof {
        lemma_view_parts(*doc);
    }
    match doc {
        Json::Null => null_value(),
        Json::Bool(b) => bool_value(*b),
        Json::Number(n) => number_value(copy_number(n)),
        Json::Text(s) => text_value(s.clone()),
        Json::Array(items) => {
            let mut out: Vec<serde_json::Value> = Vec::new();
            let mut i: usize = 0;
            while i < items.len()
                invariant
                    *doc == Json::Array(*items),
                    i <= items.len(),
                    out@.len() == i,
                    forall|j: int|
                        0 <= j < i ==> value_doc(#[trigger] out@[j]) == canonical(items@[j]@),
                decreases items.len() - i,
            {
                assert(decreases_to!(*doc => doc->Array_0));
                out.push(to_value(&items[i]));
                i += 1;
            }
            let v = array_value(out);
            assert(value_docs(out@) =~= canonical_items(doc@->Array_0));
            v
        },
        Json::Object(entries) => {
            let mut out: Vec<(String, serde_json::Value)> = Vec::new();
            let mut i: usize = 0;
            while i < entries.len()
                invariant
                    *doc == Json::Object(*entries),
                    i <= entries.len(),
                    out@.len() == i,
                    forall|j: int|
                        0 <= j < i ==> (#[trigger] out@[j]).0@ == entries@[j].0@ && value_doc(
                            out@[j].1,
                        ) == canonical(entries@[j].1@),
                decreases entries.len() - i,
            {
                assert(decreases_to!(*doc => doc->Object_0));
                out.push((entries[i].0.clone(), to_value(&entries[i].1)));
                i += 1;
            }
            let v = object_value(out);
            assert(entry_docs(out@) =~= canonical_entries(doc@->Object_0));
            proof {
                lemma_same_keys(entry_docs(out@), doc@->Object_0);
                if distinct_keys(doc@->Object_0) {
                    assert forall|a: int, b: int|
                        0 <= a < b < entry_docs(out@).len() implies (#[trigger] entry_docs(
                        out@,
                    )[a]).0 != (#[trigger] entry_docs(out@)[b]).0 by {
                        assert(doc@->Object_0[a].0 != doc@->Object_0[b].0);
                    }
                }
            }
            v
        },
    }
}

impl Json {
    /// The compact JSON text of the document, written by `serde_json`. The
    /// text of an object is that of a document with the same keys and, where
    /// the object names each key once, with what is written for its values.
    pub fn to_text(&self) -> (text: String)
        ensures
            text@ == json_text(self@),
            written_as_held(self@),
    {
        let v = to_value(self);
        write_value(&v)
    }

    /// An object without entries.
    pub fn empty_object() -> (doc: Json)
        ensures
            doc@ == JsonModel::Object(Seq::empty()),
    {
        let doc = Json::Object(Vec::new());
        assert(doc@->Object_0 =~= Seq::empty());
        doc
    }

    /// A text, or `null` where there is none.
    pub fn text_or_null(text: Option<String>) -> (doc: Json)
        ensures
            doc@ == match text {
                Some(s) => JsonModel::Text(s@),
                None => JsonModel::Null,
            },
    {
        match text {
            Some(s) => Json::Text(s),
            None => Json::Null,
        }
    }

    /// An array of the given documents.
    pub fn array(items: Vec<Json>) -> (doc: Json)
        ensures
            doc@ == JsonModel::Array(models(items@)),
    {
        let doc = Json::Array(items);
        assert(doc@->Array_0 =~= models(items@));
        doc
    }

    /// Whether the document is an object.
    pub fn is_object(&self) -> (b: bool)
        ensures
            b == (self@ is Object),
    {
        match self {
            Json::Object(_) => true,
            _ => false,
        }
    }

    /// The value under a key of an object: a copy of it, or `None` where the
    /// document is no object or has no such key.
    pub fn get(&self, key: &String) -> (found: Option<Json>)
        ensures
            found.is_some() == (self@ is Object && has_key(self@.entries(), key@)),
            found matches Some(value) ==> Some(value@) == value_at(self@.entries(), key@),
    {
        proof {
            lemma_view_parts(*self);
        }
        match self {
            Json::Object(entries) => {
                let mut i: usize = 0;
                while i < entries.len()
                    invariant
                        self@.entries() == entry_models(entries@),
                        self@ is Object,
                        i <= entries.len(),
                        forall|j: int| 0 <= j < i ==> (#[trigger] self@.entries()[j]).0 != key@,
                    decreases entries.len() - i,
                {
                    if entries[i].0 == *key {
                        proof {
                            lemma_first_index(self@.entries(), key@, i as int);
                        }
                        return Some(entries[i].1.clone());
                    }
                    i += 1;
                }
                None
            },
            _ => None,
        }
    }

    /// Sets `key` to `value` in an object that names each key once, and
    /// leaves such an object. `null` counts as an object not yet begun and
    /// becomes one.
    pub fn put(&mut self, key: String, value: Json)
        requires
            old(self)@ is Object || old(self)@ is Null,
            distinct_keys(old(self)@.entries()),
        ensures
            final(self)@ == JsonModel::Object(with_entry(old(self)@.entries(), key@, value@)),
            distinct_keys(final(self)@.entries()),
    {
        proof {
            lemma_with_entry_keys(old(self)@.entries(), key@, value@);
        }
        let mut taken = Json::Null;
        core::mem::swap(self, &mut taken);
        let mut entries: Vec<(String, Json)> = match taken {
            Json::Object(entries) => entries,
            _ => Vec::new(),
        };
        let ghost before = old(self)@.entries();
        proof {
            lemma_view_parts(*old(self));
            assert(entry_models(entries@) =~= before);
        }
        let mut i: usize = 0;
        while i < entries.len()
            invariant
                i <= entries.len(),
                before == old(self)@.entries(),
                distinct_keys(before),
                entry_models(entries@) == before,
                forall|j: int| 0 <= j < i ==> (#[trigger] before[j]).0 != key@,
            decreases entries.len() - i,
        {
            if entries[i].0 == key {
                proof {
                    lemma_first_index(before, key@, i as int);
                    lemma_with_entry_keys(before, key@, value@);
                }
                entries.set(i, (key, value));
                proof {
                    lemma_view_parts(Json::Object(entries));
                    assert(entry_models(entries@) =~= with_entry(before, key@, value@));
                }
                *self = Json::Object(entries);
                return ;
            }
            i += 1;
        }
        entries.push((key, value));
        proof {
            lemma_view_parts(Json::Object(entries));
            assert(entry_models(entries@) =~= with_entry(before, key@, value@));
        }
        *self = Json::Object(entries);
    }
}

} // verus!
