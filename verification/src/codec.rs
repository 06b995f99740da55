//! How the staging index is written as a document, and read back.
//!
//! The index is an object that sends each path to its record. A record is
//! an object with one field for each generation, null where the generation
//! is absent. A fingerprint is an object of eight texts. Reading accepts
//! what writing produces and gives back the same index.

use vstd::prelude::*;
use vstd::string::StringExecFns;
use crate::error::DvcsError;
use crate::json::{field_names, last_index_of, Json, JsonModel};
use crate::staging::{
    records_of, slot_view, StagedComparison, StagedComparisonView, StagedData, StagedDataView,
};
use crate::text::lemma_take_contains;
use crate::textmap::TextMap;

verus! {

/// What an object's fields say: each name with the document that was
/// written under it last.
pub open spec fn object_model(fields: Seq<(String, Json)>) -> Map<Seq<char>, JsonModel> {
    Map::new(
        |name: Seq<char>| last_index_of(field_names(fields), name) >= 0,
        |name: Seq<char>|
            {
                let i = last_index_of(field_names(fields), name);
                if 0 <= i < fields.len() {
                    fields[i].1@
                } else {
                    JsonModel::Null
                }
            },
    )
}

/// Where a name is found last, it stands, and it does not stand later.
pub proof fn lemma_last_index(names: Seq<Seq<char>>, name: Seq<char>)
    ensures
        -1 <= last_index_of(names, name) < names.len(),
        last_index_of(names, name) >= 0 ==> names[last_index_of(names, name)] == name,
        forall|j: int| last_index_of(names, name) < j < names.len() ==> names[j] != name,
    decreases names.len(),
{
    if names.len() > 0 && names.last() != name {
        lemma_last_index(names.drop_last(), name);
        let i = last_index_of(names.drop_last(), name);
        assert forall|j: int| i < j < names.len() implies names[j] != name by {
            if j < names.len() - 1 {
                assert(names.drop_last()[j] == names[j]);
            }
        }
    }
}

/// A name that stands at `at` and nowhere later is found last at `at`.
pub proof fn lemma_last_index_is(names: Seq<Seq<char>>, name: Seq<char>, at: int)
    requires
        0 <= at < names.len(),
        names[at] == name,
        forall|j: int| at < j < names.len() ==> names[j] != name,
    ensures
        last_index_of(names, name) == at,
{
    lemma_last_index(names, name);
}

/// A name that stands nowhere is not found.
pub proof fn lemma_last_index_none(names: Seq<Seq<char>>, name: Seq<char>)
    requires
        forall|j: int| 0 <= j < names.len() ==> names[j] != name,
    ensures
        last_index_of(names, name) == -1,
{
    lemma_last_index(names, name);
}

/// The document of an object is the model of its fields.
pub proof fn lemma_object_view(fields: Vec<(String, Json)>)
    ensures
        Json::Object(fields)@ == JsonModel::Object(object_model(fields@)),
{
    let names = field_names(fields@);
    assert forall|name: Seq<char>| #[trigger]
        last_index_of(names, name) >= -1 && last_index_of(names, name) < fields.len() by {
        lemma_last_index(names, name);
    }
    match Json::Object(fields)@ {
        JsonModel::Object(m) => {
            assert(m =~= object_model(fields@));
        },
        _ => {
            assert(false);
        },
    }
}

/// One more field sets the document of its name.
pub proof fn lemma_object_push(fields: Seq<(String, Json)>, name: String, document: Json)
    ensures
        object_model(fields.push((name, document))) == object_model(fields).insert(
            name@,
            document@,
        ),
{
    let more = fields.push((name, document));
    let names = field_names(fields);
    assert(field_names(more) =~= names.push(name@));
    assert(field_names(more).drop_last() =~= names);
    assert forall|n: Seq<char>| #[trigger]
        last_index_of(field_names(more), n) == (if n == name@ {
            fields.len() as int
        } else {
            last_index_of(names, n)
        }) by {}
    assert forall|n: Seq<char>| #[trigger]
        last_index_of(names, n) >= -1 && last_index_of(names, n) < fields.len() by {
        lemma_last_index(names, n);
    }
    assert(object_model(more) =~= object_model(fields).insert(name@, document@));
}

/// The text written under `name`, if a text is written there.
pub open spec fn text_at(fields: Map<Seq<char>, JsonModel>, name: Seq<char>) -> Option<Seq<char>> {
    if fields.dom().contains(name) {
        match fields[name] {
            JsonModel::Text(t) => Some(t),
            _ => None,
        }
    } else {
        None
    }
}

/// A fingerprint as a document.
pub open spec fn data_document(d: StagedDataView) -> JsonModel {
    JsonModel::Object(
        Map::<Seq<char>, JsonModel>::empty().insert("path"@, JsonModel::Text(d.path)).insert(
            "modified"@,
            JsonModel::Text(d.modified),
        ).insert("created"@, JsonModel::Text(d.created)).insert(
            "accessed"@,
            JsonModel::Text(d.accessed),
        ).insert("mode"@, JsonModel::Text(d.mode)).insert(
            "read_only"@,
            JsonModel::Text(d.read_only),
        ).insert("is_file"@, JsonModel::Text(d.is_file)).insert("sha1"@, JsonModel::Text(d.sha1)),
    )
}

/// The fingerprint that a document holds: an object with a text under each
/// of the eight names. Other fields are passed over.
pub open spec fn document_data(j: JsonModel) -> Option<StagedDataView> {
    match j {
        JsonModel::Object(f) => {
            if text_at(f, "path"@).is_some() && text_at(f, "modified"@).is_some() && text_at(
                f,
                "created"@,
            ).is_some() && text_at(f, "accessed"@).is_some() && text_at(f, "mode"@).is_some()
                && text_at(f, "read_only"@).is_some() && text_at(f, "is_file"@).is_some()
                && text_at(f, "sha1"@).is_some() {
                Some(
                    StagedDataView {
                        path: text_at(f, "path"@).unwrap(),
                        modified: text_at(f, "modified"@).unwrap(),
                        created: text_at(f, "created"@).unwrap(),
                        accessed: text_at(f, "accessed"@).unwrap(),
                        mode: text_at(f, "mode"@).unwrap(),
                        read_only: text_at(f, "read_only"@).unwrap(),
                        is_file: text_at(f, "is_file"@).unwrap(),
                        sha1: text_at(f, "sha1"@).unwrap(),
                    },
                )
            } else {
                None
            }
        },
        _ => None,
    }
}

/// One generation as a document: null where it is absent.
pub open spec fn slot_document(slot: Option<StagedDataView>) -> JsonModel {
    match slot {
        Some(d) => data_document(d),
        None => JsonModel::Null,
    }
}

/// The generation written under `name`: absent where nothing or null is
/// written there, unreadable where something else than a fingerprint is.
pub open spec fn document_slot(fields: Map<Seq<char>, JsonModel>, name: Seq<char>) -> Option<
    Option<StagedDataView>,
> {
    if !fields.dom().contains(name) {
        Some(None)
    } else {
        match fields[name] {
            JsonModel::Null => Some(None),
            other => match document_data(other) {
                Some(d) => Some(Some(d)),
                None => None,
            },
        }
    }
}

/// A record as a document.
pub open spec fn record_document(r: StagedComparisonView) -> JsonModel {
    JsonModel::Object(
        Map::<Seq<char>, JsonModel>::empty().insert(
            "working_directory"@,
            slot_document(r.working_directory),
        ).insert("staging"@, slot_document(r.staging)).insert(
            "repository_version"@,
            slot_document(r.repository_version),
        ),
    )
}

/// The record that a document holds.
pub open spec fn document_record(j: JsonModel) -> Option<StagedComparisonView> {
    match j {
        JsonModel::Object(f) => {
            if document_slot(f, "working_directory"@).is_some() && document_slot(
                f,
                "staging"@,
            ).is_some() && document_slot(f, "repository_version"@).is_some() {
                Some(
                    StagedComparisonView {
                        working_directory: document_slot(f, "working_directory"@).unwrap(),
                        staging: document_slot(f, "staging"@).unwrap(),
                        repository_version: document_slot(f, "repository_version"@).unwrap(),
                    },
                )
            } else {
                None
            }
        },
        _ => None,
    }
}

/// The index as a document.
pub open spec fn index_document(records: Map<Seq<char>, StagedComparisonView>) -> JsonModel {
    JsonModel::Object(records.map_values(|r: StagedComparisonView| record_document(r)))
}

/// The index that a document holds: an object whose every field holds a
/// record.
pub open spec fn document_index(j: JsonModel) -> Option<Map<Seq<char>, StagedComparisonView>> {
    match j {
        JsonModel::Object(f) => {
            if forall|path: Seq<char>| f.dom().contains(path) ==> document_record(f[path]).is_some() {
                Some(
                    Map::new(
                        |path: Seq<char>| f.dom().contains(path),
                        |path: Seq<char>| document_record(f[path]).unwrap(),
                    ),
                )
            } else {
                None
            }
        },
        _ => None,
    }
}

/// The names of a fingerprint's fields differ from each other, and so do
/// those of a record's.
pub proof fn lemma_names_differ()
    ensures
        "path"@ != "modified"@,
        "path"@ != "created"@,
        "path"@ != "accessed"@,
        "path"@ != "mode"@,
        "path"@ != "read_only"@,
        "path"@ != "is_file"@,
        "path"@ != "sha1"@,
        "modified"@ != "created"@,
        "modified"@ != "accessed"@,
        "modified"@ != "mode"@,
        "modified"@ != "read_only"@,
        "modified"@ != "is_file"@,
        "modified"@ != "sha1"@,
        "created"@ != "accessed"@,
        "created"@ != "mode"@,
        "created"@ != "read_only"@,
        "created"@ != "is_file"@,
        "created"@ != "sha1"@,
        "accessed"@ != "mode"@,
        "accessed"@ != "read_only"@,
        "accessed"@ != "is_file"@,
        "accessed"@ != "sha1"@,
        "mode"@ != "read_only"@,
        "mode"@ != "is_file"@,
        "mode"@ != "sha1"@,
        "read_only"@ != "is_file"@,
        "read_only"@ != "sha1"@,
        "is_file"@ != "sha1"@,
        "working_directory"@ != "staging"@,
        "working_directory"@ != "repository_version"@,
        "staging"@ != "repository_version"@,
{
    reveal_strlit("path");
    reveal_strlit("modified");
    reveal_strlit("created");
    reveal_strlit("accessed");
    reveal_strlit("mode");
    reveal_strlit("read_only");
    reveal_strlit("is_file");
    reveal_strlit("sha1");
    reveal_strlit("working_directory");
    reveal_strlit("staging");
    reveal_strlit("repository_version");
    assert("path"@[0] == 'p');
    assert("modified"@[0] == 'm');
    assert("created"@[0] == 'c');
    assert("accessed"@[0] == 'a');
    assert("mode"@[1] == 'o');
    assert("modified"@[1] == 'o');
    assert("read_only"@[0] == 'r');
    assert("is_file"@[0] == 'i');
    assert("sha1"@[0] == 's');
    assert("working_directory"@[0] == 'w');
    assert("staging"@[0] == 's');
    assert("repository_version"@[0] == 'r');
    assert("mode"@.len() == 4);
    assert("modified"@.len() == 8);
}

/// Reading what was written of a fingerprint gives the fingerprint back.
pub proof fn lemma_data_round_trip(d: StagedDataView)
    ensures
        document_data(data_document(d)) == Some(d),
{
    lemma_names_differ();
}

/// Reading what was written of a record gives the record back.
pub proof fn lemma_record_round_trip(r: StagedComparisonView)
    ensures
        document_record(record_document(r)) == Some(r),
{
    lemma_names_differ();
    if r.working_directory.is_some() {
        lemma_data_round_trip(r.working_directory.unwrap());
    }
    if r.staging.is_some() {
        lemma_data_round_trip(r.staging.unwrap());
    }
    if r.repository_version.is_some() {
        lemma_data_round_trip(r.repository_version.unwrap());
    }
}

/// Reading what was written of an index gives the index back: the same
/// paths, each with the same record.
pub proof fn lemma_index_round_trip(records: Map<Seq<char>, StagedComparisonView>)
    ensures
        document_index(index_document(records)) == Some(records),
{
    let f = records.map_values(|r: StagedComparisonView| record_document(r));
    assert forall|path: Seq<char>| f.dom().contains(path) implies document_record(f[path]) == Some(
        records[path],
    ) by {
        lemma_record_round_trip(records[path]);
    }
    let back = Map::new(
        |path: Seq<char>| f.dom().contains(path),
        |path: Seq<char>| document_record(f[path]).unwrap(),
    );
    assert(back =~= records);
}

/// The names among the first `n` that count, in their order: those that
/// are not written once more further on.
pub open spec fn counted(names: Seq<Seq<char>>, n: int) -> Seq<Seq<char>>
    decreases n,
{
    if n <= 0 {
        Seq::empty()
    } else {
        let earlier = counted(names, n - 1);
        if last_index_of(names, names[n - 1]) == n - 1 {
            earlier.push(names[n - 1])
        } else {
            earlier
        }
    }
}

/// The last position at which `name` is written among an object's fields.
pub fn find_last(fields: &Vec<(String, Json)>, name: &str) -> (at: Option<usize>)
    ensures
        match at {
            Some(i) => i < fields.len() && last_index_of(field_names(fields@), name@) == i,
            None => last_index_of(field_names(fields@), name@) == -1,
        },
{
    let wanted = String::from_str(name);
    let mut i: usize = fields.len();
    while i > 0
        invariant
            i <= fields.len(),
            wanted@ == name@,
            forall|j: int| i <= j < fields.len() ==> field_names(fields@)[j] != name@,
        decreases i,
    {
        i -= 1;
        if fields[i].0 == wanted {
            proof {
                lemma_last_index_is(field_names(fields@), name@, i as int);
            }
            return Some(i);
        }
    }
    proof {
        lemma_last_index_none(field_names(fields@), name@);
    }
    None
}

/// The document written under `name` in an object.
pub fn find_field<'a>(fields: &'a Vec<(String, Json)>, name: &str) -> (r: Option<&'a Json>)
    ensures
        match r {
            Some(j) => object_model(fields@).dom().contains(name@) && j@ == object_model(
                fields@,
            )[name@],
            None => !object_model(fields@).dom().contains(name@),
        },
{
    match find_last(fields, name) {
        Some(i) => Some(&fields[i].1),
        None => None,
    }
}

/// The text written under `name` in an object.
pub fn text_of(fields: &Vec<(String, Json)>, name: &str) -> (r: Option<String>)
    ensures
        match r {
            Some(t) => text_at(object_model(fields@), name@) == Some(t@),
            None => text_at(object_model(fields@), name@).is_none(),
        },
{
    match find_field(fields, name) {
        Some(j) => match j {
            Json::Text(t) => Some(t.clone()),
            _ => None,
        },
        None => None,
    }
}

/// Writes one more field.
pub fn put(fields: &mut Vec<(String, Json)>, name: &str, document: Json)
    ensures
        object_model(final(fields)@) == object_model(old(fields)@).insert(name@, document@),
{
    let key = String::from_str(name);
    proof {
        lemma_object_push(fields@, key, document);
    }
    fields.push((key, document));
}

/// An object without fields says nothing.
pub proof fn lemma_no_fields()
    ensures
        object_model(Seq::<(String, Json)>::empty()) == Map::<Seq<char>, JsonModel>::empty(),
{
    assert(object_model(Seq::<(String, Json)>::empty()) =~= Map::<Seq<char>, JsonModel>::empty());
}

/// Writes a fingerprint as a document.
pub fn data_json(d: &StagedData) -> (j: Json)
    ensures
        j@ == data_document(d@),
{
    let mut fields: Vec<(String, Json)> = Vec::new();
    proof {
        lemma_no_fields();
    }
    put(&mut fields, "path", Json::Text(d.path.clone()));
    put(&mut fields, "modified", Json::Text(d.modified.clone()));
    put(&mut fields, "created", Json::Text(d.created.clone()));
    put(&mut fields, "accessed", Json::Text(d.accessed.clone()));
    put(&mut fields, "mode", Json::Text(d.mode.clone()));
    put(&mut fields, "read_only", Json::Text(d.read_only.clone()));
    put(&mut fields, "is_file", Json::Text(d.is_file.clone()));
    put(&mut fields, "sha1", Json::Text(d.sha1.clone()));
    proof {
        lemma_object_view(fields);
    }
    Json::Object(fields)
}

/// Reads a fingerprint from a document.
pub fn json_data(j: &Json) -> (r: Option<StagedData>)
    ensures
        match r {
            Some(d) => document_data(j@) == Some(d@),
            None => document_data(j@).is_none(),
        },
{
    match j {
        Json::Object(fields) => {
            proof {
                lemma_object_view(*fields);
            }
            let path = match text_of(fields, "path") {
                Some(t) => t,
                None => {
                    return None;
                },
            };
            let modified = match text_of(fields, "modified") {
                Some(t) => t,
                None => {
                    return None;
                },
            };
            let created = match text_of(fields, "created") {
                Some(t) => t,
                None => {
                    return None;
                },
            };
            let accessed = match text_of(fields, "accessed") {
                Some(t) => t,
                None => {
                    return None;
                },
            };
            let mode = match text_of(fields, "mode") {
                Some(t) => t,
                None => {
                    return None;
                },
            };
            let read_only = match text_of(fields, "read_only") {
                Some(t) => t,
                None => {
                    return None;
                },
            };
            let is_file = match text_of(fields, "is_file") {
                Some(t) => t,
                None => {
                    return None;
                },
            };
            let sha1 = match text_of(fields, "sha1") {
                Some(t) => t,
                None => {
                    return None;
                },
            };
            Some(StagedData { path, modified, created, accessed, mode, read_only, is_file, sha1 })
        },
        _ => None,
    }
}

/// Writes one generation as a document.
pub fn slot_json(slot: &Option<StagedData>) -> (j: Json)
    ensures
        j@ == slot_document(slot_view(*slot)),
{
    match slot {
        Some(d) => data_json(d),
        None => Json::Null,
    }
}

/// Reads the generation written under `name` in a record.
fn json_slot(fields: &Vec<(String, Json)>, name: &str) -> (r: Option<Option<StagedData>>)
    ensures
        match r {
            Some(slot) => document_slot(object_model(fields@), name@) == Some(slot_view(slot)),
            None => document_slot(object_model(fields@), name@).is_none(),
        },
{
    match find_field(fields, name) {
        None => Some(None),
        Some(j) => match j {
            Json::Null => Some(None),
            _ => match json_data(j) {
                Some(d) => Some(Some(d)),
                None => None,
            },
        },
    }
}

/// Writes a record as a document.
pub fn record_json(r: &StagedComparison) -> (j: Json)
    ensures
        j@ == record_document(r@),
{
    let mut fields: Vec<(String, Json)> = Vec::new();
    proof {
        lemma_no_fields();
    }
    put(&mut fields, "working_directory", slot_json(&r.working_directory));
    put(&mut fields, "staging", slot_json(&r.staging));
    put(&mut fields, "repository_version", slot_json(&r.repository_version));
    proof {
        lemma_object_view(fields);
    }
    Json::Object(fields)
}

/// Reads a record from a document.
pub fn json_record(j: &Json) -> (r: Option<StagedComparison>)
    ensures
        match r {
            Some(record) => document_record(j@) == Some(record@),
            None => document_record(j@).is_none(),
        },
{
    match j {
        Json::Object(fields) => {
            proof {
                lemma_object_view(*fields);
            }
            let working_directory = match json_slot(fields, "working_directory") {
                Some(slot) => slot,
                None => {
                    return None;
                },
            };
            let staging = match json_slot(fields, "staging") {
                Some(slot) => slot,
                None => {
                    return None;
                },
            };
            let repository_version = match json_slot(fields, "repository_version") {
                Some(slot) => slot,
                None => {
                    return None;
                },
            };
            Some(StagedComparison { working_directory, staging, repository_version })
        },
        _ => None,
    }
}

/// The documents of the records of the first `n` paths.
pub open spec fn documents_upto(
    paths: Seq<Seq<char>>,
    records: Map<Seq<char>, StagedComparisonView>,
    n: int,
) -> Map<Seq<char>, JsonModel> {
    Map::new(
        |path: Seq<char>| paths.take(n).contains(path),
        |path: Seq<char>| record_document(records[path]),
    )
}

/// Writes an index as a document.
pub fn encode_index(index: &TextMap<StagedComparison>) -> (j: Json)
    requires
        index.wf(),
    ensures
        j@ == index_document(records_of(index@)),
{
    let mut fields: Vec<(String, Json)> = Vec::new();
    let ghost paths = index.keys();
    let ghost records = records_of(index@);
    proof {
        lemma_no_fields();
        assert(documents_upto(paths, records, 0) =~= Map::<Seq<char>, JsonModel>::empty());
    }
    let mut i: usize = 0;
    while i < index.len()
        invariant
            index.wf(),
            paths == index.keys(),
            records == records_of(index@),
            i <= paths.len(),
            object_model(fields@) == documents_upto(paths, records, i as int),
        decreases paths.len() - i,
    {
        let document = record_json(index.value_at(i));
        proof {
            index.lemma_view_at(i as int);
            lemma_take_contains(paths, i as int);
            assert(documents_upto(paths, records, i + 1) =~= documents_upto(
                paths,
                records,
                i as int,
            ).insert(paths[i as int], document@));
        }
        put(&mut fields, index.key_at(i).as_str(), document);
        i += 1;
    }
    proof {
        assert(paths.take(paths.len() as int) =~= paths);
        assert(documents_upto(paths, records, paths.len() as int) =~= records.map_values(
            |r: StagedComparisonView| record_document(r),
        ));
        lemma_object_view(fields);
    }
    Json::Object(fields)
}

/// Reads an index from a document. Fails where the document is no object
/// or one of its fields holds no record.
pub fn decode_index(j: &Json) -> (r: Result<TextMap<StagedComparison>, DvcsError>)
    ensures
        match r {
            Ok(index) => index.wf() && document_index(j@) == Some(records_of(index@)),
            Err(e) => e == DvcsError::CorruptIndex && document_index(j@).is_none(),
        },
        match (r, *j) {
            (Ok(index), Json::Object(fields)) => index.keys() == counted(
                field_names(fields@),
                fields.len() as int,
            ),
            _ => true,
        },
{
    match j {
        Json::Object(fields) => {
            proof {
                lemma_object_view(*fields);
            }
            let ghost names = field_names(fields@);
            let ghost object = object_model(fields@);
            let mut index: TextMap<StagedComparison> = TextMap::new();
            let mut i: usize = 0;
            while i < fields.len()
                invariant
                    i <= fields.len(),
                    names == field_names(fields@),
                    object == object_model(fields@),
                    j@ == JsonModel::Object(object),
                    index.wf(),
                    index.keys() == counted(names, i as int),
                    forall|path: Seq<char>| #[trigger]
                        index@.dom().contains(path) <==> 0 <= last_index_of(names, path) < i,
                    forall|path: Seq<char>| #[trigger]
                        index@.dom().contains(path) ==> document_record(object[path]) == Some(
                            index@[path]@,
                        ),
                decreases fields.len() - i,
            {
                let is_last = match find_last(fields, fields[i].0.as_str()) {
                    Some(at) => at == i,
                    None => false,
                };
                let ghost earlier = index;
                let ghost name = names[i as int];
                proof {
                    lemma_last_index(names, name);
                    assert(is_last <==> last_index_of(names, name) == i);
                    assert(earlier@.dom().contains(name) <==> 0 <= last_index_of(names, name) < i);
                    assert(is_last ==> !earlier.keys().contains(name));
                }
                if is_last {
                    match json_record(&fields[i].1) {
                        Some(record) => {
                            index.insert(fields[i].0.clone(), record);
                        },
                        None => {
                            proof {
                                assert(object.dom().contains(name));
                                assert(object[name] == fields@[i as int].1@);
                                assert(document_record(object[name]).is_none());
                            }
                            return Err(DvcsError::CorruptIndex);
                        },
                    }
                }
                proof {
                    assert forall|path: Seq<char>| #[trigger]
                        index@.dom().contains(path) <==> 0 <= last_index_of(names, path) < i
                            + 1 by {
                        lemma_last_index(names, path);
                        assert(earlier@.dom().contains(path) <==> 0 <= last_index_of(names, path)
                            < i);
                    }
                    assert forall|path: Seq<char>| #[trigger]
                        index@.dom().contains(path) implies document_record(object[path]) == Some(
                        index@[path]@,
                    ) by {
                        if path != name || !is_last {
                            assert(earlier@.dom().contains(path));
                        }
                    }
                }
                i += 1;
            }
            proof {
                assert forall|path: Seq<char>| object.dom().contains(path) implies document_record(
                    object[path],
                ).is_some() by {
                    lemma_last_index(names, path);
                    assert(index@.dom().contains(path));
                }
                let read = Map::new(
                    |path: Seq<char>| object.dom().contains(path),
                    |path: Seq<char>| document_record(object[path]).unwrap(),
                );
                assert forall|path: Seq<char>| read.dom().contains(path) <==> records_of(
                    index@,
                ).dom().contains(path) by {
                    lemma_last_index(names, path);
                }
                assert(read =~= records_of(index@));
            }
            Ok(index)
        },
        _ => Err(DvcsError::CorruptIndex),
    }
}

/// For each name of an object, the position of the field that counts:
/// the last one written under that name. The names come in the order of
/// those fields.
pub fn object_fields(fields: &Vec<(String, Json)>) -> (positions: TextMap<usize>)
    ensures
        positions.wf(),
        positions.keys() == counted(field_names(fields@), fields.len() as int),
        forall|name: Seq<char>| #[trigger]
            positions@.dom().contains(name) <==> object_model(fields@).dom().contains(name),
        forall|name: Seq<char>| #[trigger]
            positions@.dom().contains(name) ==> {
                &&& positions@[name] < fields.len()
                &&& field_names(fields@)[positions@[name] as int] == name
                &&& object_model(fields@)[name] == fields@[positions@[name] as int].1@
            },
{
    let ghost names = field_names(fields@);
    let mut positions: TextMap<usize> = TextMap::new();
    let mut i: usize = 0;
    while i < fields.len()
        invariant
            i <= fields.len(),
            names == field_names(fields@),
            positions.wf(),
            positions.keys() == counted(names, i as int),
            forall|name: Seq<char>| #[trigger]
                positions@.dom().contains(name) <==> 0 <= last_index_of(names, name) < i,
            forall|name: Seq<char>| #[trigger]
                positions@.dom().contains(name) ==> positions@[name] == last_index_of(names, name),
        decreases fields.len() - i,
    {
        let is_last = match find_last(fields, fields[i].0.as_str()) {
            Some(at) => at == i,
            None => false,
        };
        let ghost earlier = positions;
        let ghost name = names[i as int];
        proof {
            lemma_last_index(names, name);
            assert(is_last <==> last_index_of(names, name) == i);
            assert(earlier@.dom().contains(name) <==> 0 <= last_index_of(names, name) < i);
            assert(is_last ==> !earlier.keys().contains(name));
        }
        if is_last {
            positions.insert(fields[i].0.clone(), i);
        }
        proof {
            assert forall|n: Seq<char>| #[trigger]
                positions@.dom().contains(n) <==> 0 <= last_index_of(names, n) < i + 1 by {
                lemma_last_index(names, n);
                assert(earlier@.dom().contains(n) <==> 0 <= last_index_of(names, n) < i);
            }
            assert forall|n: Seq<char>| #[trigger]
                positions@.dom().contains(n) implies positions@[n] == last_index_of(names, n) by {
                if n != name || !is_last {
                    assert(earlier@.dom().contains(n));
                }
            }
        }
        i += 1;
    }
    proof {
        assert forall|n: Seq<char>| #[trigger]
            positions@.dom().contains(n) <==> object_model(fields@).dom().contains(n) by {
            lemma_last_index(names, n);
        }
        assert forall|n: Seq<char>| #[trigger] positions@.dom().contains(n) implies {
            &&& positions@[n] < fields.len()
            &&& field_names(fields@)[positions@[n] as int] == n
            &&& object_model(fields@)[n] == fields@[positions@[n] as int].1@
        } by {
            lemma_last_index(names, n);
        }
    }
    positions
}

} // verus!
