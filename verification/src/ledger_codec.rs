//! How the commit ledger is written as a document, and read back.
//!
//! The ledger is an object of four fields: the history as a list of texts,
//! the branch heads as an object of texts, the file histories as an object
//! of lists of texts, and the folder that it belongs to as a text.

use vstd::prelude::*;
use crate::codec::{
    counted, lemma_no_fields, lemma_object_view, object_fields, object_model, put,
};
use crate::json::{field_names, Json, JsonModel};
use crate::ledger::{heads_of, logs_of};
use crate::text::{lemma_take_contains, texts};
use crate::textmap::TextMap;

verus! {

/// A ledger as a mathematical value.
pub struct LedgerView {
    pub history: Seq<Seq<char>>,
    pub heads: Map<Seq<char>, Seq<char>>,
    pub files: Map<Seq<char>, Seq<Seq<char>>>,
    pub root: Seq<char>,
}

/// The text that a document is, if it is one.
pub open spec fn document_text(j: JsonModel) -> Option<Seq<char>> {
    match j {
        JsonModel::Text(t) => Some(t),
        _ => None,
    }
}

/// A list of texts as a document.
pub open spec fn list_document(items: Seq<Seq<char>>) -> JsonModel {
    JsonModel::List(items.map_values(|t: Seq<char>| JsonModel::Text(t)))
}

/// The list of texts that a document holds.
pub open spec fn document_list(j: JsonModel) -> Option<Seq<Seq<char>>> {
    match j {
        JsonModel::List(items) => {
            if forall|i: int| 0 <= i < items.len() ==> (#[trigger] document_text(items[i])).is_some() {
                Some(items.map_values(|d: JsonModel| document_text(d).unwrap()))
            } else {
                None
            }
        },
        _ => None,
    }
}

/// The branch heads as a document.
pub open spec fn heads_document(heads: Map<Seq<char>, Seq<char>>) -> JsonModel {
    JsonModel::Object(heads.map_values(|t: Seq<char>| JsonModel::Text(t)))
}

/// The branch heads that a document holds.
pub open spec fn document_heads(j: JsonModel) -> Option<Map<Seq<char>, Seq<char>>> {
    match j {
        JsonModel::Object(f) => {
            if forall|k: Seq<char>| f.dom().contains(k) ==> (#[trigger] document_text(f[k])).is_some() {
                Some(f.map_values(|d: JsonModel| document_text(d).unwrap()))
            } else {
                None
            }
        },
        _ => None,
    }
}

/// The file histories as a document.
pub open spec fn files_document(files: Map<Seq<char>, Seq<Seq<char>>>) -> JsonModel {
    JsonModel::Object(files.map_values(|lines: Seq<Seq<char>>| list_document(lines)))
}

/// The file histories that a document holds.
pub open spec fn document_files(j: JsonModel) -> Option<Map<Seq<char>, Seq<Seq<char>>>> {
    match j {
        JsonModel::Object(f) => {
            if forall|k: Seq<char>| f.dom().contains(k) ==> (#[trigger] document_list(f[k])).is_some() {
                Some(f.map_values(|d: JsonModel| document_list(d).unwrap()))
            } else {
                None
            }
        },
        _ => None,
    }
}

/// A ledger as a document.
pub open spec fn ledger_document(ledger: LedgerView) -> JsonModel {
    JsonModel::Object(
        Map::<Seq<char>, JsonModel>::empty().insert(
            "commit_history"@,
            list_document(ledger.history),
        ).insert("branch_heads"@, heads_document(ledger.heads)).insert(
            "file_history"@,
            files_document(ledger.files),
        ).insert("dvcs_hidden"@, JsonModel::Text(ledger.root)),
    )
}

/// What is written under `name`, or null where nothing is.
pub open spec fn field_or_null(f: Map<Seq<char>, JsonModel>, name: Seq<char>) -> JsonModel {
    if f.dom().contains(name) {
        f[name]
    } else {
        JsonModel::Null
    }
}

/// The ledger that a document holds: an object with all four fields.
pub open spec fn document_ledger(j: JsonModel) -> Option<LedgerView> {
    match j {
        JsonModel::Object(f) => {
            let history = document_list(field_or_null(f, "commit_history"@));
            let heads = document_heads(field_or_null(f, "branch_heads"@));
            let files = document_files(field_or_null(f, "file_history"@));
            let root = document_text(field_or_null(f, "dvcs_hidden"@));
            if history.is_some() && heads.is_some() && files.is_some() && root.is_some() {
                Some(
                    LedgerView {
                        history: history.unwrap(),
                        heads: heads.unwrap(),
                        files: files.unwrap(),
                        root: root.unwrap(),
                    },
                )
            } else {
                None
            }
        },
        _ => None,
    }
}

/// The names of a ledger's fields differ from each other.
pub proof fn lemma_ledger_names_differ()
    ensures
        "commit_history"@ != "branch_heads"@,
        "commit_history"@ != "file_history"@,
        "commit_history"@ != "dvcs_hidden"@,
        "branch_heads"@ != "file_history"@,
        "branch_heads"@ != "dvcs_hidden"@,
        "file_history"@ != "dvcs_hidden"@,
{
    reveal_strlit("commit_history");
    reveal_strlit("branch_heads");
    reveal_strlit("file_history");
    reveal_strlit("dvcs_hidden");
    assert("commit_history"@[0] == 'c');
    assert("branch_heads"@[0] == 'b');
    assert("file_history"@[0] == 'f');
    assert("dvcs_hidden"@[0] == 'd');
}

/// Reading what was written of a list gives the list back.
pub proof fn lemma_list_round_trip(items: Seq<Seq<char>>)
    ensures
        document_list(list_document(items)) == Some(items),
{
    let written = items.map_values(|t: Seq<char>| JsonModel::Text(t));
    assert(written.map_values(|d: JsonModel| document_text(d).unwrap()) =~= items);
}

/// Reading what was written of the branch heads gives them back.
pub proof fn lemma_heads_round_trip(heads: Map<Seq<char>, Seq<char>>)
    ensures
        document_heads(heads_document(heads)) == Some(heads),
{
    let written = heads.map_values(|t: Seq<char>| JsonModel::Text(t));
    assert(written.map_values(|d: JsonModel| document_text(d).unwrap()) =~= heads);
}

/// Reading what was written of the file histories gives them back.
pub proof fn lemma_files_round_trip(files: Map<Seq<char>, Seq<Seq<char>>>)
    ensures
        document_files(files_document(files)) == Some(files),
{
    let written = files.map_values(|lines: Seq<Seq<char>>| list_document(lines));
    assert forall|k: Seq<char>| written.dom().contains(k) implies #[trigger] document_list(
        written[k],
    ) == Some(files[k]) by {
        lemma_list_round_trip(files[k]);
    }
    assert(written.map_values(|d: JsonModel| document_list(d).unwrap()) =~= files);
}

/// Reading what was written of a ledger gives the ledger back.
pub proof fn lemma_ledger_round_trip(ledger: LedgerView)
    ensures
        document_ledger(ledger_document(ledger)) == Some(ledger),
{
    lemma_ledger_names_differ();
    lemma_list_round_trip(ledger.history);
    lemma_heads_round_trip(ledger.heads);
    lemma_files_round_trip(ledger.files);
}

/// The document of a list is the list of its items' documents.
pub proof fn lemma_list_view(items: Vec<Json>)
    ensures
        Json::List(items)@ == JsonModel::List(Seq::new(items.len() as nat, |i: int| items@[i]@)),
{
    match Json::List(items)@ {
        JsonModel::List(documents) => {
            assert(documents =~= Seq::new(items.len() as nat, |i: int| items@[i]@));
        },
        _ => {
            assert(false);
        },
    }
}

/// Writes a list of texts as a document.
pub fn texts_json(items: &Vec<String>) -> (j: Json)
    ensures
        j@ == list_document(texts(items@)),
{
    let mut documents: Vec<Json> = Vec::new();
    let mut i: usize = 0;
    while i < items.len()
        invariant
            i <= items.len(),
            documents.len() == i,
            forall|k: int| 0 <= k < i ==> documents@[k]@ == JsonModel::Text(items@[k]@),
        decreases items.len() - i,
    {
        documents.push(Json::Text(items[i].clone()));
        i += 1;
    }
    proof {
        lemma_list_view(documents);
        assert(Seq::new(documents.len() as nat, |i: int| documents@[i]@) =~= texts(
            items@,
        ).map_values(|t: Seq<char>| JsonModel::Text(t)));
    }
    Json::List(documents)
}

/// Reads a list of texts from a document.
pub fn json_texts(j: &Json) -> (r: Option<Vec<String>>)
    ensures
        match r {
            Some(items) => document_list(j@) == Some(texts(items@)),
            None => document_list(j@).is_none(),
        },
{
    match j {
        Json::List(documents) => {
            proof {
                lemma_list_view(*documents);
            }
            let ghost models = Seq::new(documents.len() as nat, |i: int| documents@[i]@);
            let mut items: Vec<String> = Vec::new();
            let mut i: usize = 0;
            while i < documents.len()
                invariant
                    i <= documents.len(),
                    items.len() == i,
                    models == Seq::new(documents.len() as nat, |i: int| documents@[i]@),
                    j@ == JsonModel::List(models),
                    forall|k: int| 0 <= k < i ==> document_text(models[k]) == Some(items@[k]@),
                decreases documents.len() - i,
            {
                match &documents[i] {
                    Json::Text(t) => {
                        items.push(t.clone());
                    },
                    _ => {
                        proof {
                            assert(document_text(models[i as int]).is_none());
                        }
                        return None;
                    },
                }
                i += 1;
            }
            proof {
                assert(models.map_values(|d: JsonModel| document_text(d).unwrap()) =~= texts(items@));
            }
            Some(items)
        },
        _ => None,
    }
}

/// The documents of the first `n` names.
pub open spec fn fields_upto(
    names: Seq<Seq<char>>,
    documents: Map<Seq<char>, JsonModel>,
    n: int,
) -> Map<Seq<char>, JsonModel> {
    Map::new(|k: Seq<char>| names.take(n).contains(k), |k: Seq<char>| documents[k])
}

/// Writes the branch heads as a document.
pub fn heads_json(heads: &TextMap<String>) -> (j: Json)
    requires
        heads.wf(),
    ensures
        j@ == heads_document(heads_of(heads@)),
{
    let mut fields: Vec<(String, Json)> = Vec::new();
    let ghost names = heads.keys();
    let ghost documents = heads_of(heads@).map_values(|t: Seq<char>| JsonModel::Text(t));
    proof {
        lemma_no_fields();
        assert(fields_upto(names, documents, 0) =~= Map::<Seq<char>, JsonModel>::empty());
    }
    let mut i: usize = 0;
    while i < heads.len()
        invariant
            heads.wf(),
            names == heads.keys(),
            documents == heads_of(heads@).map_values(|t: Seq<char>| JsonModel::Text(t)),
            i <= names.len(),
            object_model(fields@) == fields_upto(names, documents, i as int),
        decreases names.len() - i,
    {
        let document = Json::Text(heads.value_at(i).clone());
        proof {
            heads.lemma_view_at(i as int);
            lemma_take_contains(names, i as int);
            assert(fields_upto(names, documents, i + 1) =~= fields_upto(
                names,
                documents,
                i as int,
            ).insert(names[i as int], document@));
        }
        put(&mut fields, heads.key_at(i).as_str(), document);
        i += 1;
    }
    proof {
        assert(names.take(names.len() as int) =~= names);
        assert(fields_upto(names, documents, names.len() as int) =~= documents);
        lemma_object_view(fields);
    }
    Json::Object(fields)
}

/// Writes the file histories as a document.
pub fn files_json(files: &TextMap<Vec<String>>) -> (j: Json)
    requires
        files.wf(),
    ensures
        j@ == files_document(logs_of(files@)),
{
    let mut fields: Vec<(String, Json)> = Vec::new();
    let ghost names = files.keys();
    let ghost documents = logs_of(files@).map_values(
        |lines: Seq<Seq<char>>| list_document(lines),
    );
    proof {
        lemma_no_fields();
        assert(fields_upto(names, documents, 0) =~= Map::<Seq<char>, JsonModel>::empty());
    }
    let mut i: usize = 0;
    while i < files.len()
        invariant
            files.wf(),
            names == files.keys(),
            documents == logs_of(files@).map_values(|lines: Seq<Seq<char>>| list_document(lines)),
            i <= names.len(),
            object_model(fields@) == fields_upto(names, documents, i as int),
        decreases names.len() - i,
    {
        let document = texts_json(files.value_at(i));
        proof {
            files.lemma_view_at(i as int);
            lemma_take_contains(names, i as int);
            assert(fields_upto(names, documents, i + 1) =~= fields_upto(
                names,
                documents,
                i as int,
            ).insert(names[i as int], document@));
        }
        put(&mut fields, files.key_at(i).as_str(), document);
        i += 1;
    }
    proof {
        assert(names.take(names.len() as int) =~= names);
        assert(fields_upto(names, documents, names.len() as int) =~= documents);
        lemma_object_view(fields);
    }
    Json::Object(fields)
}

/// Reads the branch heads from a document.
pub fn json_heads(j: &Json) -> (r: Option<TextMap<String>>)
    ensures
        match r {
            Some(heads) => heads.wf() && document_heads(j@) == Some(heads_of(heads@)),
            None => document_heads(j@).is_none(),
        },
        match (r, *j) {
            (Some(heads), Json::Object(fields)) => heads.keys() == counted(
                field_names(fields@),
                fields.len() as int,
            ),
            _ => true,
        },
{
    match j {
        Json::Object(fields) => {
            proof {
                lemma_object_view(*fields);
            }
            let ghost object = object_model(fields@);
            let positions = object_fields(fields);
            let mut heads: TextMap<String> = TextMap::new();
            let mut i: usize = 0;
            while i < positions.len()
                invariant
                    positions.wf(),
                    heads.wf(),
                    object == object_model(fields@),
                    j@ == JsonModel::Object(object),
                    i <= positions.keys().len(),
                    heads.keys() == positions.keys().take(i as int),
                    forall|name: Seq<char>| #[trigger]
                        positions@.dom().contains(name) <==> object.dom().contains(name),
                    forall|name: Seq<char>| #[trigger]
                        positions@.dom().contains(name) ==> {
                            &&& positions@[name] < fields.len()
                            &&& object[name] == fields@[positions@[name] as int].1@
                        },
                    forall|k: int|
                        0 <= k < i ==> document_text(object[positions.keys()[k]]) == Some(
                            heads.values()[k]@,
                        ),
                decreases positions.keys().len() - i,
            {
                let name = positions.key_at(i);
                let at = *positions.value_at(i);
                proof {
                    positions.lemma_view_at(i as int);
                    assert(positions@.dom().contains(name@));
                    if positions.keys().take(i as int).contains(name@) {
                        let k = positions.keys().take(i as int).index_of(name@);
                        assert(positions.keys()[k] == name@);
                    }
                    assert(positions.keys().take(i + 1) =~= positions.keys().take(i as int).push(
                        name@,
                    ));
                }
                match &fields[at].1 {
                    Json::Text(t) => {
                        heads.insert(name.clone(), t.clone());
                    },
                    _ => {
                        proof {
                            assert(object.dom().contains(name@));
                            assert(document_text(object[name@]).is_none());
                        }
                        return None;
                    },
                }
                i += 1;
            }
            proof {
                assert(positions.keys().take(positions.keys().len() as int) =~= positions.keys());
                assert forall|k: Seq<char>| object.dom().contains(k) implies #[trigger] document_text(
                    object[k],
                ) == Some(heads@[k]@) by {
                    assert(positions@.dom().contains(k));
                    let at = heads.keys().index_of(k);
                    assert(heads.keys()[at] == k);
                    heads.lemma_view_at(at);
                }
                assert forall|k: Seq<char>| object.dom().contains(k) <==> heads@.dom().contains(k) by {
                    assert(positions@.dom().contains(k) <==> object.dom().contains(k));
                }
                assert(object.map_values(|d: JsonModel| document_text(d).unwrap()) =~= heads_of(
                    heads@,
                ));
            }
            Some(heads)
        },
        _ => None,
    }
}

/// Reads the file histories from a document.
pub fn json_files(j: &Json) -> (r: Option<TextMap<Vec<String>>>)
    ensures
        match r {
            Some(files) => files.wf() && document_files(j@) == Some(logs_of(files@)),
            None => document_files(j@).is_none(),
        },
        match (r, *j) {
            (Some(files), Json::Object(fields)) => files.keys() == counted(
                field_names(fields@),
                fields.len() as int,
            ),
            _ => true,
        },
{
    match j {
        Json::Object(fields) => {
            proof {
                lemma_object_view(*fields);
            }
            let ghost object = object_model(fields@);
            let positions = object_fields(fields);
            let mut files: TextMap<Vec<String>> = TextMap::new();
            let mut i: usize = 0;
            while i < positions.len()
                invariant
                    positions.wf(),
                    files.wf(),
                    object == object_model(fields@),
                    j@ == JsonModel::Object(object),
                    i <= positions.keys().len(),
                    files.keys() == positions.keys().take(i as int),
                    forall|name: Seq<char>| #[trigger]
                        positions@.dom().contains(name) <==> object.dom().contains(name),
                    forall|name: Seq<char>| #[trigger]
                        positions@.dom().contains(name) ==> {
                            &&& positions@[name] < fields.len()
                            &&& object[name] == fields@[positions@[name] as int].1@
                        },
                    forall|k: int|
                        0 <= k < i ==> document_list(object[positions.keys()[k]]) == Some(
                            texts(files.values()[k]@),
                        ),
                decreases positions.keys().len() - i,
            {
                let name = positions.key_at(i);
                let at = *positions.value_at(i);
                proof {
                    positions.lemma_view_at(i as int);
                    assert(positions@.dom().contains(name@));
                    if positions.keys().take(i as int).contains(name@) {
                        let k = positions.keys().take(i as int).index_of(name@);
                        assert(positions.keys()[k] == name@);
                    }
                    assert(positions.keys().take(i + 1) =~= positions.keys().take(i as int).push(
                        name@,
                    ));
                }
                match json_texts(&fields[at].1) {
                    Some(lines) => {
                        files.insert(name.clone(), lines);
                    },
                    None => {
                        proof {
                            assert(object.dom().contains(name@));
                            assert(document_list(object[name@]).is_none());
                        }
                        return None;
                    },
                }
                i += 1;
            }
            proof {
                assert(positions.keys().take(positions.keys().len() as int) =~= positions.keys());
                assert forall|k: Seq<char>| object.dom().contains(k) implies #[trigger] document_list(
                    object[k],
                ) == Some(texts(files@[k]@)) by {
                    assert(positions@.dom().contains(k));
                    let at = files.keys().index_of(k);
                    assert(files.keys()[at] == k);
                    files.lemma_view_at(at);
                }
                assert forall|k: Seq<char>| object.dom().contains(k) <==> files@.dom().contains(k) by {
                    assert(positions@.dom().contains(k) <==> object.dom().contains(k));
                }
                assert(object.map_values(|d: JsonModel| document_list(d).unwrap()) =~= logs_of(
                    files@,
                ));
            }
            Some(files)
        },
        _ => None,
    }
}

} // verus!
