//! The staging index: for each tracked path, its fingerprint in the working
//! directory, in the staging area and in the last committed snapshot.

use vstd::prelude::*;
use vstd::string::StringExecFns;
use crate::codec::{
    decode_index, document_index, encode_index, index_document, lemma_index_round_trip,
};
use crate::digest::{content_hash, create_sha_1_hex};
use crate::json::{parse, parsed, render, rendered};
use crate::error::DvcsError;
use crate::text::{
    decimal, decimal_text, lemma_filter_next, lies_in, path_lies_in, texts, truth, truth_text,
};
use crate::textmap::TextMap;

verus! {

/// What the file system reported of one path: its times in nanoseconds
/// since the epoch, its permission bits, and the bytes of a regular file.
/// A time or the content is absent where it could not be read.
#[derive(Debug)]
pub struct FileProbe {
    pub modified: Option<u128>,
    pub created: Option<u128>,
    pub accessed: Option<u128>,
    pub mode: u32,
    pub read_only: bool,
    pub is_file: bool,
    pub content: Option<Vec<u8>>,
}

/// The fingerprint of one path at one point in time: its metadata and the
/// hash of its content.
#[derive(Debug, Clone)]
pub struct StagedData {
    pub path: String,
    pub modified: String,
    pub created: String,
    pub accessed: String,
    pub mode: String,
    pub read_only: String,
    pub is_file: String,
    pub sha1: String,
}

/// A fingerprint as a mathematical value.
pub struct StagedDataView {
    pub path: Seq<char>,
    pub modified: Seq<char>,
    pub created: Seq<char>,
    pub accessed: Seq<char>,
    pub mode: Seq<char>,
    pub read_only: Seq<char>,
    pub is_file: Seq<char>,
    pub sha1: Seq<char>,
}

/// The three generations of one path. A generation is absent where the
/// path was not seen in it.
#[derive(Debug, Clone)]
pub struct StagedComparison {
    pub working_directory: Option<StagedData>,
    pub staging: Option<StagedData>,
    pub repository_version: Option<StagedData>,
}

/// The three generations of one path as a mathematical value.
pub struct StagedComparisonView {
    pub working_directory: Option<StagedDataView>,
    pub staging: Option<StagedDataView>,
    pub repository_version: Option<StagedDataView>,
}

/// The fingerprint that an optional slot holds, as a mathematical value.
pub open spec fn slot_view(slot: Option<StagedData>) -> Option<StagedDataView> {
    match slot {
        Some(data) => Some(data@),
        None => None,
    }
}

/// Two fingerprints are the same state of a path if hash, modification
/// time, creation time and mode agree. The time of the last access says
/// nothing about the content and is left out.
pub open spec fn same_fingerprint(a: StagedDataView, b: StagedDataView) -> bool {
    &&& a.sha1 == b.sha1
    &&& a.modified == b.modified
    &&& a.created == b.created
    &&& a.mode == b.mode
}

/// The bytes that are hashed for a path: a file's content, nothing for a
/// directory.
pub open spec fn hashed_bytes(probe: FileProbe) -> Seq<u8> {
    if probe.is_file && probe.content.is_some() {
        probe.content.unwrap()@
    } else {
        Seq::empty()
    }
}

/// Whether everything that a fingerprint needs could be read.
pub open spec fn readable(probe: FileProbe) -> bool {
    &&& probe.is_file ==> probe.content.is_some()
    &&& probe.modified.is_some()
    &&& probe.created.is_some()
    &&& probe.accessed.is_some()
}

/// The fingerprint of a path of which everything could be read.
pub open spec fn fingerprint_of(path: Seq<char>, probe: FileProbe) -> StagedDataView {
    StagedDataView {
        path,
        modified: decimal(probe.modified.unwrap() as nat),
        created: decimal(probe.created.unwrap() as nat),
        accessed: decimal(probe.accessed.unwrap() as nat),
        mode: decimal(probe.mode as nat),
        read_only: truth(probe.read_only),
        is_file: truth(probe.is_file),
        sha1: content_hash(hashed_bytes(probe)),
    }
}

/// A record with one slot replaced: slot 0 is the staging area, slot 1 the
/// working directory, any other the committed snapshot.
pub open spec fn with_slot(
    record: StagedComparisonView,
    kind: int,
    data: Option<StagedDataView>,
) -> StagedComparisonView {
    if kind == 0 {
        StagedComparisonView { staging: data, ..record }
    } else if kind == 1 {
        StagedComparisonView { working_directory: data, ..record }
    } else {
        StagedComparisonView { repository_version: data, ..record }
    }
}

/// The record without any generation.
pub open spec fn blank() -> StagedComparisonView {
    StagedComparisonView { working_directory: None, staging: None, repository_version: None }
}

/// The record of `path`, blank where the path is not tracked.
pub open spec fn record_or_blank(
    records: Map<Seq<char>, StagedComparisonView>,
    path: Seq<char>,
) -> StagedComparisonView {
    if records.dom().contains(path) {
        records[path]
    } else {
        blank()
    }
}

impl StagedData {
    pub open spec fn view(&self) -> StagedDataView {
        StagedDataView {
            path: self.path@,
            modified: self.modified@,
            created: self.created@,
            accessed: self.accessed@,
            mode: self.mode@,
            read_only: self.read_only@,
            is_file: self.is_file@,
            sha1: self.sha1@,
        }
    }

    /// A copy with the same fields.
    pub fn duplicate(&self) -> (copy: StagedData)
        ensures
            copy@ == self@,
    {
        StagedData {
            path: self.path.clone(),
            modified: self.modified.clone(),
            created: self.created.clone(),
            accessed: self.accessed.clone(),
            mode: self.mode.clone(),
            read_only: self.read_only.clone(),
            is_file: self.is_file.clone(),
            sha1: self.sha1.clone(),
        }
    }

    /// Whether the two fingerprints are the same state of a path.
    pub fn matches(&self, other: &StagedData) -> (same: bool)
        ensures
            same == same_fingerprint(self@, other@),
    {
        self.sha1 == other.sha1 && self.modified == other.modified && self.created == other.created
            && self.mode == other.mode
    }
}

/// A copy of an optional fingerprint.
pub fn duplicate_slot(slot: &Option<StagedData>) -> (copy: Option<StagedData>)
    ensures
        slot_view(copy) == slot_view(*slot),
{
    match slot {
        Some(data) => Some(data.duplicate()),
        None => None,
    }
}

impl StagedComparison {
    pub open spec fn view(&self) -> StagedComparisonView {
        StagedComparisonView {
            working_directory: slot_view(self.working_directory),
            staging: slot_view(self.staging),
            repository_version: slot_view(self.repository_version),
        }
    }

    /// A copy with the same generations.
    pub fn duplicate(&self) -> (copy: StagedComparison)
        ensures
            copy@ == self@,
    {
        StagedComparison {
            working_directory: duplicate_slot(&self.working_directory),
            staging: duplicate_slot(&self.staging),
            repository_version: duplicate_slot(&self.repository_version),
        }
    }
}

/// Whether two fingerprints are equal in every field.
pub fn same_data(a: &StagedData, b: &StagedData) -> (same: bool)
    ensures
        same == (a@ == b@),
{
    a.path == b.path && a.modified == b.modified && a.created == b.created && a.accessed
        == b.accessed && a.mode == b.mode && a.read_only == b.read_only && a.is_file == b.is_file
        && a.sha1 == b.sha1
}

/// Whether two generations are both absent or equal in every field.
pub fn same_slot(a: &Option<StagedData>, b: &Option<StagedData>) -> (same: bool)
    ensures
        same == (slot_view(*a) == slot_view(*b)),
{
    match (a, b) {
        (Some(x), Some(y)) => same_data(x, y),
        (None, None) => true,
        _ => false,
    }
}

/// Whether two records are equal in every generation.
pub fn same_record(a: &StagedComparison, b: &StagedComparison) -> (same: bool)
    ensures
        same == (a@ == b@),
{
    same_slot(&a.working_directory, &b.working_directory) && same_slot(&a.staging, &b.staging)
        && same_slot(&a.repository_version, &b.repository_version)
}

/// The time of a file as text: the nanoseconds since the epoch in decimal
/// notation. Fails where the time could not be read.
pub fn get_time_from_metadata(time: Option<u128>) -> (r: Result<String, DvcsError>)
    ensures
        match r {
            Ok(text) => time.is_some() && text@ == decimal(time.unwrap() as nat),
            Err(e) => time.is_none() && e == DvcsError::Unreadable,
        },
{
    match time {
        Some(nanos) => Ok(decimal_text(nanos)),
        None => Err(DvcsError::Unreadable),
    }
}

/// Puts the metadata of a path and the hash of its content together.
/// Fails where one of the three times could not be read.
pub fn create_staged_data_struct(probe: &FileProbe, sha1: String, path: String) -> (r: Result<
    StagedData,
    DvcsError,
>)
    ensures
        match r {
            Ok(data) => {
                &&& probe.modified.is_some() && probe.created.is_some() && probe.accessed.is_some()
                &&& data@ == StagedDataView { sha1: sha1@, ..fingerprint_of(path@, *probe) }
            },
            Err(e) => {
                &&& e == DvcsError::Unreadable
                &&& probe.modified.is_none() || probe.created.is_none() || probe.accessed.is_none()
            },
        },
{
    let modified = get_time_from_metadata(probe.modified);
    let created = get_time_from_metadata(probe.created);
    let accessed = get_time_from_metadata(probe.accessed);
    match (modified, created, accessed) {
        (Ok(modified), Ok(created), Ok(accessed)) => Ok(
            StagedData {
                mode: decimal_text(probe.mode as u128),
                read_only: truth_text(probe.read_only),
                is_file: truth_text(probe.is_file),
                modified,
                created,
                accessed,
                sha1,
                path,
            },
        ),
        _ => Err(DvcsError::Unreadable),
    }
}

/// Fingerprints one path from what the file system reported of it. The
/// result depends on the path and the report alone, so an unchanged file
/// has the same fingerprint whenever it is taken.
pub fn fingerprint(path: &str, probe: &Option<FileProbe>) -> (r: Result<StagedData, DvcsError>)
    ensures
        match r {
            Ok(data) => probe.is_some() && readable(probe.unwrap()) && data@ == fingerprint_of(
                path@,
                probe.unwrap(),
            ),
            Err(e) => match *probe {
                None => e == DvcsError::NotFound,
                Some(p) => e == DvcsError::Unreadable && !readable(p),
            },
        },
{
    match probe {
        None => Err(DvcsError::NotFound),
        Some(p) => {
            let hash = if p.is_file {
                create_sha_1_hex(&p.content)
            } else {
                let nothing: Option<Vec<u8>> = Some(Vec::new());
                create_sha_1_hex(&nothing)
            };
            match hash {
                Ok(sha1) => create_staged_data_struct(p, sha1, String::from_str(path)),
                Err(e) => Err(e),
            }
        },
    }
}

/// Replaces one slot of a record.
pub fn set_slot(record: &mut StagedComparison, kind: i32, data: Option<StagedData>)
    ensures
        final(record)@ == with_slot(old(record)@, kind as int, slot_view(data)),
{
    if kind == 0 {
        record.staging = data;
    } else if kind == 1 {
        record.working_directory = data;
    } else {
        record.repository_version = data;
    }
}

/// The records as mathematical values.
pub open spec fn records_of(m: Map<Seq<char>, StagedComparison>) -> Map<
    Seq<char>,
    StagedComparisonView,
> {
    m.map_values(|r: StagedComparison| r@)
}

/// Whether adding a path succeeds: a path that exists must be readable; a
/// path that does not exist is accepted only where its absence is to be
/// recorded.
pub open spec fn add_outcome(probe: Option<FileProbe>, add_nulls: bool) -> Result<(), DvcsError> {
    match probe {
        Some(p) => if readable(p) {
            Ok(())
        } else {
            Err(DvcsError::Unreadable)
        },
        None => if add_nulls {
            Ok(())
        } else {
            Err(DvcsError::NotFound)
        },
    }
}

/// The records after a path was added to slot `kind`. A readable path gets
/// its fingerprint in that slot, in a new record where it had none. A
/// missing path loses that slot where its absence is to be recorded and it
/// has a record. Nothing else changes.
pub open spec fn records_after_add(
    records: Map<Seq<char>, StagedComparisonView>,
    path: Seq<char>,
    kind: int,
    probe: Option<FileProbe>,
    add_nulls: bool,
) -> Map<Seq<char>, StagedComparisonView> {
    match probe {
        Some(p) => if readable(p) {
            records.insert(
                path,
                with_slot(record_or_blank(records, path), kind, Some(fingerprint_of(path, p))),
            )
        } else {
            records
        },
        None => if add_nulls && records.dom().contains(path) {
            records.insert(path, with_slot(records[path], kind, None))
        } else {
            records
        },
    }
}

/// The tracked paths after a path was added: a readable path that was not
/// tracked comes last; nothing else changes.
pub open spec fn paths_after_add(
    paths: Seq<Seq<char>>,
    path: Seq<char>,
    probe: Option<FileProbe>,
) -> Seq<Seq<char>> {
    if probe.is_some() && readable(probe.unwrap()) && !paths.contains(path) {
        paths.push(path)
    } else {
        paths
    }
}

/// The records after a path was taken out of the staging area: its staging
/// slot is empty, its other slots are as before.
pub open spec fn records_after_remove(
    records: Map<Seq<char>, StagedComparisonView>,
    path: Seq<char>,
) -> Map<Seq<char>, StagedComparisonView> {
    if records.dom().contains(path) {
        records.insert(path, with_slot(records[path], 0, None))
    } else {
        records
    }
}

/// A file that did not change between two looks at it has the same
/// fingerprint both times, whatever the time of its last access; and where
/// that time and the write protection are the same too, the two
/// fingerprints are equal in every field.
pub proof fn lemma_unchanged_file_same_fingerprint(path: Seq<char>, first: FileProbe, second: FileProbe)
    requires
        readable(first),
        readable(second),
        first.modified == second.modified,
        first.created == second.created,
        first.mode == second.mode,
        first.is_file == second.is_file,
        hashed_bytes(first) == hashed_bytes(second),
    ensures
        same_fingerprint(fingerprint_of(path, first), fingerprint_of(path, second)),
        first.accessed == second.accessed && first.read_only == second.read_only
            ==> fingerprint_of(path, first) == fingerprint_of(path, second),
{
}

/// Replacing a record commutes with taking the records as values.
pub proof fn lemma_records_insert(
    m: Map<Seq<char>, StagedComparison>,
    path: Seq<char>,
    record: StagedComparison,
)
    ensures
        records_of(m.insert(path, record)) == records_of(m).insert(path, record@),
{
    assert(records_of(m.insert(path, record)) =~= records_of(m).insert(path, record@));
}

/// Staging a path and then taking it out of the staging area leaves the
/// working directory and the committed snapshot of that path as they were,
/// and its staging slot empty. The path has a record afterwards if it had
/// one before or could be staged. No other path is touched.
pub proof fn lemma_add_then_remove(
    records: Map<Seq<char>, StagedComparisonView>,
    path: Seq<char>,
    probe: Option<FileProbe>,
)
    ensures
        ({
            let added = records_after_add(records, path, 0, probe, false);
            let removed = records_after_remove(added, path);
            &&& removed.dom().contains(path) <==> (records.dom().contains(path)
                || add_outcome(probe, false).is_ok())
            &&& removed.dom().contains(path) ==> {
                &&& removed[path].staging.is_none()
                &&& removed[path].working_directory == record_or_blank(
                    records,
                    path,
                ).working_directory
                &&& removed[path].repository_version == record_or_blank(
                    records,
                    path,
                ).repository_version
            }
            &&& forall|other: Seq<char>|
                other != path ==> (removed.dom().contains(other) <==> records.dom().contains(other))
            &&& forall|other: Seq<char>|
                other != path && records.dom().contains(other) ==> removed[other] == records[other]
        }),
{
}

/// Adding the same state of a path a second time changes nothing.
pub proof fn lemma_add_is_idempotent(
    records: Map<Seq<char>, StagedComparisonView>,
    path: Seq<char>,
    kind: int,
    probe: Option<FileProbe>,
    add_nulls: bool,
)
    ensures
        ({
            let once = records_after_add(records, path, kind, probe, add_nulls);
            records_after_add(once, path, kind, probe, add_nulls) == once
        }),
{
    let once = records_after_add(records, path, kind, probe, add_nulls);
    assert(records_after_add(once, path, kind, probe, add_nulls) =~= once);
}

/// The index that the text of an index file stands for. An empty file
/// stands for an index that tracks nothing.
pub open spec fn index_of_text(text: Seq<char>) -> Option<Map<Seq<char>, StagedComparisonView>> {
    if text.len() == 0 {
        Some(Map::empty())
    } else {
        match parsed(text) {
            Some(document) => document_index(document),
            None => None,
        }
    }
}

/// The index that a repository starts from: what its index file stands
/// for, or nothing where it has no index file yet.
pub open spec fn loaded(index_text: Option<&str>) -> Option<Map<Seq<char>, StagedComparisonView>> {
    match index_text {
        Some(text) => index_of_text(text@),
        None => Some(Map::empty()),
    }
}

/// The text in which an index is persisted.
pub open spec fn index_text_of(records: Map<Seq<char>, StagedComparisonView>) -> Seq<char> {
    rendered(index_document(records))
}

/// Where the text that is written of an index is read as the document that
/// was written, a repository that is opened on that text has the same
/// index: the same paths, each with the same record. What is assumed is
/// said of the reading and writing of text alone, which is not this
/// library's work.
pub proof fn lemma_written_index_is_loaded(
    records: Map<Seq<char>, StagedComparisonView>,
    index_text: Option<&str>,
)
    requires
        index_text.is_some(),
        index_text.unwrap()@ == index_text_of(records),
        index_text.unwrap()@.len() > 0,
        parsed(index_text_of(records)) == Some(index_document(records)),
    ensures
        loaded(index_text) == Some(records),
{
    lemma_index_round_trip(records);
}

/// Paths with what the file system reported of each.
pub open spec fn reports(entries: Seq<(String, Option<FileProbe>)>) -> Seq<
    (Seq<char>, Option<FileProbe>),
> {
    entries.map_values(|e: (String, Option<FileProbe>)| (e.0@, e.1))
}

/// The records after the working directory was looked at again: each
/// reported path that is staged gets its current fingerprint in the
/// working-directory slot, or loses that slot where the path is gone.
/// Paths that are not staged are passed over.
pub open spec fn refreshed(
    records: Map<Seq<char>, StagedComparisonView>,
    entries: Seq<(Seq<char>, Option<FileProbe>)>,
) -> Map<Seq<char>, StagedComparisonView>
    decreases entries.len(),
{
    if entries.len() == 0 {
        records
    } else {
        let earlier = refreshed(records, entries.drop_last());
        let (path, probe) = entries.last();
        if earlier.dom().contains(path) && earlier[path].staging.is_some() {
            records_after_add(earlier, path, 1, probe, true)
        } else {
            earlier
        }
    }
}

/// The tracked paths after a walk over a tree: the paths that were not
/// tracked come last, in the order in which they were reported. What lies
/// in the repository's own folder is passed over.
pub open spec fn paths_after_snapshot(
    paths: Seq<Seq<char>>,
    hidden: Seq<char>,
    entries: Seq<(Seq<char>, Option<FileProbe>)>,
) -> Seq<Seq<char>>
    decreases entries.len(),
{
    if entries.len() == 0 {
        paths
    } else {
        let earlier = paths_after_snapshot(paths, hidden, entries.drop_last());
        let (path, probe) = entries.last();
        if lies_in(hidden, path) {
            earlier
        } else {
            paths_after_add(earlier, path, probe)
        }
    }
}

/// The records after a walk over a tree: each reported path gets its
/// fingerprint in slot `kind`. Only what lies in the repository's own
/// folder, the folder itself and what is below it, is passed over.
pub open spec fn snapshot(
    records: Map<Seq<char>, StagedComparisonView>,
    hidden: Seq<char>,
    kind: int,
    entries: Seq<(Seq<char>, Option<FileProbe>)>,
) -> Map<Seq<char>, StagedComparisonView>
    decreases entries.len(),
{
    if entries.len() == 0 {
        records
    } else {
        let earlier = snapshot(records, hidden, kind, entries.drop_last());
        let (path, probe) = entries.last();
        if lies_in(hidden, path) {
            earlier
        } else {
            records_after_add(earlier, path, kind, probe, false)
        }
    }
}

/// Whether two indexes track the same paths with the same records, in
/// whatever order.
pub fn same_records(a: &TextMap<StagedComparison>, b: &TextMap<StagedComparison>) -> (same: bool)
    requires
        a.wf(),
        b.wf(),
    ensures
        same == (records_of(a@) == records_of(b@)),
{
    let mut i: usize = 0;
    while i < a.len()
        invariant
            a.wf(),
            b.wf(),
            i <= a.keys().len(),
            forall|k: int|
                0 <= k < i ==> b@.dom().contains(#[trigger] a.keys()[k]) && b@[a.keys()[k]]@
                    == a.values()[k]@,
        decreases a.keys().len() - i,
    {
        let ghost path = a.keys()[i as int];
        proof {
            a.lemma_view_at(i as int);
        }
        match b.get(a.key_at(i).as_str()) {
            Some(record) => {
                if !same_record(a.value_at(i), record) {
                    proof {
                        assert(records_of(a@)[path] != records_of(b@)[path]);
                    }
                    return false;
                }
            },
            None => {
                proof {
                    assert(records_of(a@).dom().contains(path));
                    assert(!records_of(b@).dom().contains(path));
                }
                return false;
            },
        }
        i += 1;
    }
    let mut j: usize = 0;
    while j < b.len()
        invariant
            a.wf(),
            b.wf(),
            j <= b.keys().len(),
            forall|k: int| 0 <= k < j ==> a@.dom().contains(#[trigger] b.keys()[k]),
        decreases b.keys().len() - j,
    {
        let ghost path = b.keys()[j as int];
        proof {
            b.lemma_view_at(j as int);
        }
        if a.find(b.key_at(j).as_str()).is_none() {
            proof {
                assert(records_of(b@).dom().contains(path));
                assert(!records_of(a@).dom().contains(path));
            }
            return false;
        }
        j += 1;
    }
    proof {
        assert forall|path: Seq<char>| a@.dom().contains(path) implies b@.dom().contains(path)
            && b@[path]@ == a@[path]@ by {
            let k = a.keys().index_of(path);
            assert(a.keys()[k] == path);
            a.lemma_view_at(k);
        }
        assert forall|path: Seq<char>| b@.dom().contains(path) implies a@.dom().contains(path) by {
            let k = b.keys().index_of(path);
            assert(b.keys()[k] == path);
        }
        assert(records_of(a@) =~= records_of(b@));
    }
    true
}

/// Reads an index from the text of an index file.
pub fn read_from_staging_file(text: &str) -> (r: Result<TextMap<StagedComparison>, DvcsError>)
    ensures
        match r {
            Ok(index) => index.wf() && index_of_text(text@) == Some(records_of(index@)),
            Err(e) => e == DvcsError::CorruptIndex && index_of_text(text@).is_none(),
        },
{
    if text.is_empty() {
        let index: TextMap<StagedComparison> = TextMap::new();
        assert(records_of(index@) =~= Map::<Seq<char>, StagedComparisonView>::empty());
        return Ok(index);
    }
    match parse(text) {
        Ok(document) => decode_index(&document),
        Err(e) => Err(e),
    }
}

#[derive(Debug, Clone)]
pub struct Staging {
    dvcs_hidden: String,
    working_directory: String,
    index: TextMap<StagedComparison>,
}

impl Staging {
    /// No path occurs twice in the index.
    pub closed spec fn wf(&self) -> bool {
        self.index.wf()
    }

    /// The record of each tracked path.
    pub closed spec fn records(&self) -> Map<Seq<char>, StagedComparisonView> {
        records_of(self.index@)
    }

    /// The tracked paths, in the order in which they were first seen.
    pub closed spec fn paths(&self) -> Seq<Seq<char>> {
        self.index.keys()
    }

    /// The folder that holds the repository's own files.
    pub closed spec fn hidden(&self) -> Seq<char> {
        self.dvcs_hidden@
    }

    /// The root of the working directory.
    pub closed spec fn working_root(&self) -> Seq<char> {
        self.working_directory@
    }

    /// A path is tracked exactly if it has a record.
    pub proof fn lemma_paths_are_tracked(&self)
        requires
            self.wf(),
        ensures
            forall|p: Seq<char>| self.paths().contains(p) <==> self.records().dom().contains(p),
    {
    }

    /// No path is tracked twice.
    pub proof fn lemma_paths_are_distinct(&self)
        requires
            self.wf(),
        ensures
            self.paths().no_duplicates(),
    {
    }

    /// An index that tracks nothing.
    pub fn empty(dvcs_hidden: &str, working_directory: &str) -> (staging: Staging)
        ensures
            staging.wf(),
            staging.records() == Map::<Seq<char>, StagedComparisonView>::empty(),
            staging.paths() == Seq::<Seq<char>>::empty(),
            staging.hidden() == dvcs_hidden@,
            staging.working_root() == working_directory@,
    {
        let staging = Staging {
            dvcs_hidden: String::from_str(dvcs_hidden),
            working_directory: String::from_str(working_directory),
            index: TextMap::new(),
        };
        assert(staging.records() =~= Map::<Seq<char>, StagedComparisonView>::empty());
        staging
    }

    /// The folder that holds the repository's own files.
    pub fn hidden_text(&self) -> (hidden: String)
        ensures
            hidden@ == self.hidden(),
    {
        self.dvcs_hidden.clone()
    }

    /// The root of the working directory.
    pub fn working_root_text(&self) -> (root: String)
        ensures
            root@ == self.working_root(),
    {
        self.working_directory.clone()
    }

    /// Hands the index out.
    pub fn get_index(self) -> (index: TextMap<StagedComparison>)
        requires
            self.wf(),
        ensures
            index.wf(),
            index.keys() == self.paths(),
            records_of(index@) == self.records(),
    {
        self.index
    }

    /// The record of a path together with the path as the index holds it.
    pub fn get_file_from_staging(&self, file_path: &str) -> (r: Result<
        (&String, &StagedComparison),
        DvcsError,
    >)
        requires
            self.wf(),
        ensures
            match r {
                Ok(found) => {
                    &&& self.records().dom().contains(file_path@)
                    &&& found.0@ == file_path@
                    &&& found.1@ == self.records()[file_path@]
                },
                Err(e) => e == DvcsError::NoSuchEntry && !self.records().dom().contains(file_path@),
            },
    {
        match self.index.find(file_path) {
            Some(i) => {
                proof {
                    self.index.lemma_view_at(i as int);
                }
                Ok((self.index.key_at(i), self.index.value_at(i)))
            },
            None => Err(DvcsError::NoSuchEntry),
        }
    }

    /// Puts what the file system reported of a path into slot `kind` of the
    /// path's record.
    pub fn add_staged_data(
        &mut self,
        file_path: &str,
        kind: i32,
        add_nulls: bool,
        probe: &Option<FileProbe>,
    ) -> (r: Result<(), DvcsError>)
        requires
            old(self).wf(),
        ensures
            final(self).wf(),
            r == add_outcome(*probe, add_nulls),
            final(self).records() == records_after_add(
                old(self).records(),
                file_path@,
                kind as int,
                *probe,
                add_nulls,
            ),
            final(self).paths() == paths_after_add(old(self).paths(), file_path@, *probe),
            final(self).hidden() == old(self).hidden(),
            final(self).working_root() == old(self).working_root(),
    {
        match fingerprint(file_path, probe) {
            Ok(data) => {
                let mut record = match self.index.find(file_path) {
                    Some(i) => {
                        proof {
                            self.index.lemma_view_at(i as int);
                        }
                        self.index.value_at(i).duplicate()
                    },
                    None => StagedComparison {
                        working_directory: None,
                        staging: None,
                        repository_version: None,
                    },
                };
                set_slot(&mut record, kind, Some(data));
                proof {
                    lemma_records_insert(self.index@, file_path@, record);
                }
                self.index.insert(String::from_str(file_path), record);
                Ok(())
            },
            Err(e) => {
                match probe {
                    Some(_) => Err(e),
                    None => {
                        if add_nulls {
                            match self.index.find(file_path) {
                                Some(i) => {
                                    proof {
                                        self.index.lemma_view_at(i as int);
                                    }
                                    let mut record = self.index.value_at(i).duplicate();
                                    set_slot(&mut record, kind, None);
                                    proof {
                                        lemma_records_insert(self.index@, file_path@, record);
                                    }
                                    self.index.set_value(i, record);
                                },
                                None => {},
                            }
                            Ok(())
                        } else {
                            Err(DvcsError::NotFound)
                        }
                    },
                }
            },
        }
    }

    /// Takes a path out of the staging area. Its record stays, with the
    /// other two slots as they were.
    pub fn unstage(&mut self, file_path: &str) -> (r: Result<(), DvcsError>)
        requires
            old(self).wf(),
        ensures
            final(self).wf(),
            match r {
                Ok(_) => old(self).records().dom().contains(file_path@),
                Err(e) => e == DvcsError::NoSuchEntry && !old(self).records().dom().contains(
                    file_path@,
                ),
            },
            final(self).records() == records_after_remove(old(self).records(), file_path@),
            final(self).paths() == old(self).paths(),
            final(self).hidden() == old(self).hidden(),
            final(self).working_root() == old(self).working_root(),
    {
        match self.index.find(file_path) {
            Some(i) => {
                proof {
                    self.index.lemma_view_at(i as int);
                }
                let mut record = self.index.value_at(i).duplicate();
                set_slot(&mut record, 0, None);
                proof {
                    lemma_records_insert(self.index@, file_path@, record);
                }
                self.index.set_value(i, record);
                Ok(())
            },
            None => Err(DvcsError::NoSuchEntry),
        }
    }

    /// Opens the index of a repository. The repository's folder must
    /// exist. Where it has no index file yet the index tracks nothing;
    /// where it has one, the file must stand for an index.
    pub fn new(
        dvcs_hidden: &str,
        working_directory: &str,
        repo_exists: bool,
        index_text: Option<&str>,
    ) -> (r: Result<Staging, DvcsError>)
        ensures
            match r {
                Ok(staging) => {
                    &&& repo_exists
                    &&& staging.wf()
                    &&& loaded(index_text) == Some(staging.records())
                    &&& staging.hidden() == dvcs_hidden@
                    &&& staging.working_root() == working_directory@
                },
                Err(e) => if repo_exists {
                    e == DvcsError::CorruptIndex && loaded(index_text).is_none()
                } else {
                    e == DvcsError::NoSuchRepository
                },
            },
    {
        if !repo_exists {
            return Err(DvcsError::NoSuchRepository);
        }
        let index = match index_text {
            Some(text) => match read_from_staging_file(text) {
                Ok(index) => index,
                Err(e) => {
                    return Err(e);
                },
            },
            None => {
                let index: TextMap<StagedComparison> = TextMap::new();
                assert(records_of(index@) =~= Map::<Seq<char>, StagedComparisonView>::empty());
                index
            },
        };
        Ok(
            Staging {
                dvcs_hidden: String::from_str(dvcs_hidden),
                working_directory: String::from_str(working_directory),
                index,
            },
        )
    }

    /// The text to persist: the whole index as one document. Every index
    /// can be written.
    pub fn write_to_staging_file(&self) -> (r: Result<String, DvcsError>)
        requires
            self.wf(),
        ensures
            r.is_ok(),
            r.unwrap()@ == index_text_of(self.records()),
    {
        let document = encode_index(&self.index);
        render(&document)
    }

    /// Stages a path and hands back the text to persist. It succeeds
    /// exactly if the path could be fingerprinted.
    pub fn add_file_to_staging(&mut self, file_path: &str, probe: &Option<FileProbe>) -> (r: Result<
        String,
        DvcsError,
    >)
        requires
            old(self).wf(),
        ensures
            final(self).wf(),
            final(self).records() == records_after_add(
                old(self).records(),
                file_path@,
                0,
                *probe,
                false,
            ),
            final(self).paths() == paths_after_add(old(self).paths(), file_path@, *probe),
            final(self).hidden() == old(self).hidden(),
            final(self).working_root() == old(self).working_root(),
            match r {
                Ok(text) => add_outcome(*probe, false).is_ok() && text@ == index_text_of(
                    final(self).records(),
                ),
                Err(e) => add_outcome(*probe, false) == Err::<(), DvcsError>(e),
            },
    {
        match self.add_staged_data(file_path, 0, false, probe) {
            Ok(_) => self.write_to_staging_file(),
            Err(e) => Err(e),
        }
    }

    /// Takes a path out of the staging area and hands back the text to
    /// persist.
    pub fn remove_file_from_staging(&mut self, file_path: &str) -> (r: Result<String, DvcsError>)
        requires
            old(self).wf(),
        ensures
            final(self).wf(),
            final(self).records() == records_after_remove(old(self).records(), file_path@),
            final(self).paths() == old(self).paths(),
            final(self).hidden() == old(self).hidden(),
            final(self).working_root() == old(self).working_root(),
            match r {
                Ok(text) => old(self).records().dom().contains(file_path@) && text@
                    == index_text_of(final(self).records()),
                Err(e) => e == DvcsError::NoSuchEntry && !old(self).records().dom().contains(
                    file_path@,
                ),
            },
    {
        match self.unstage(file_path) {
            Ok(_) => self.write_to_staging_file(),
            Err(e) => Err(e),
        }
    }

    /// Whether a path is staged.
    pub fn is_staged(&self, file_path: &str) -> (staged: bool)
        requires
            self.wf(),
        ensures
            staged == (self.records().dom().contains(file_path@)
                && self.records()[file_path@].staging.is_some()),
    {
        match self.index.get(file_path) {
            Some(record) => record.staging.is_some(),
            None => false,
        }
    }

    /// Looks at the working directory again: `probes` holds what the file
    /// system now reports of the staged paths, which `staged_paths` names.
    /// A path that `probes` leaves out keeps its record. Hands back the
    /// text to persist.
    pub fn update_staged_files(&mut self, probes: &Vec<(String, Option<FileProbe>)>) -> (r: Result<
        String,
        DvcsError,
    >)
        requires
            old(self).wf(),
        ensures
            final(self).wf(),
            final(self).records() == refreshed(old(self).records(), reports(probes@)),
            final(self).paths() == old(self).paths(),
            final(self).hidden() == old(self).hidden(),
            final(self).working_root() == old(self).working_root(),
            r.is_ok(),
            r.unwrap()@ == index_text_of(final(self).records()),
    {
        let ghost before = self.records();
        let ghost entries = reports(probes@);
        let mut i: usize = 0;
        while i < probes.len()
            invariant
                i <= probes.len(),
                entries == reports(probes@),
                self.wf(),
                self.records() == refreshed(before, entries.take(i as int)),
                self.paths() == old(self).paths(),
                self.hidden() == old(self).hidden(),
                self.working_root() == old(self).working_root(),
            decreases probes.len() - i,
        {
            proof {
                assert(entries.take(i + 1).drop_last() =~= entries.take(i as int));
                assert(entries.take(i + 1).last() == (probes@[i as int].0@, probes@[i as int].1));
            }
            if self.is_staged(probes[i].0.as_str()) {
                proof {
                    self.lemma_paths_are_tracked();
                }
                let _ = self.add_staged_data(probes[i].0.as_str(), 1, true, &probes[i].1);
            }
            i += 1;
        }
        proof {
            assert(entries.take(probes.len() as int) =~= entries);
        }
        self.write_to_staging_file()
    }

    /// Takes the entries of a tree into slot `kind`, passing over what
    /// lies in the repository's own folder.
    pub fn take_snapshot(&mut self, kind: i32, entries: &Vec<(String, Option<FileProbe>)>)
        requires
            old(self).wf(),
        ensures
            final(self).wf(),
            final(self).records() == snapshot(
                old(self).records(),
                old(self).hidden(),
                kind as int,
                reports(entries@),
            ),
            final(self).paths() == paths_after_snapshot(
                old(self).paths(),
                old(self).hidden(),
                reports(entries@),
            ),
            final(self).hidden() == old(self).hidden(),
            final(self).working_root() == old(self).working_root(),
    {
        let ghost before = self.records();
        let ghost hidden = self.hidden();
        let ghost all = reports(entries@);
        let mut i: usize = 0;
        while i < entries.len()
            invariant
                i <= entries.len(),
                all == reports(entries@),
                self.wf(),
                self.hidden() == hidden,
                hidden == old(self).hidden(),
                self.working_root() == old(self).working_root(),
                self.records() == snapshot(before, hidden, kind as int, all.take(i as int)),
                self.paths() == paths_after_snapshot(old(self).paths(), hidden, all.take(i as int)),
            decreases entries.len() - i,
        {
            proof {
                assert(all.take(i + 1).drop_last() =~= all.take(i as int));
                assert(all.take(i + 1).last() == (entries@[i as int].0@, entries@[i as int].1));
            }
            if !path_lies_in(entries[i].0.as_str(), self.dvcs_hidden.as_str()) {
                let _ = self.add_staged_data(entries[i].0.as_str(), kind, false, &entries[i].1);
            }
            i += 1;
        }
        proof {
            assert(all.take(entries.len() as int) =~= all);
        }
    }

    /// Makes the tree below the working directory the snapshot in slot
    /// `kind`, and hands back the text to persist. `directory` is what the
    /// file system reported of the working directory itself, `entries` what
    /// it reported of everything below it. Where the working directory is
    /// no directory, nothing changes.
    pub fn set_staging_snapshot(
        &mut self,
        kind: i32,
        directory: &Option<FileProbe>,
        entries: &Vec<(String, Option<FileProbe>)>,
    ) -> (r: Result<String, DvcsError>)
        requires
            old(self).wf(),
        ensures
            final(self).wf(),
            final(self).hidden() == old(self).hidden(),
            final(self).working_root() == old(self).working_root(),
            final(self).records() == if is_directory(*directory) {
                snapshot(old(self).records(), old(self).hidden(), kind as int, reports(entries@))
            } else {
                old(self).records()
            },
            final(self).paths() == if is_directory(*directory) {
                paths_after_snapshot(old(self).paths(), old(self).hidden(), reports(entries@))
            } else {
                old(self).paths()
            },
            match r {
                Ok(text) => is_directory(*directory) && text@ == index_text_of(
                    final(self).records(),
                ),
                Err(e) => e == DvcsError::NoSuchDirectory && !is_directory(*directory),
            },
    {
        let found = match directory {
            Some(probe) => !probe.is_file,
            None => false,
        };
        if found {
            self.take_snapshot(kind, entries);
            self.write_to_staging_file()
        } else {
            Err(DvcsError::NoSuchDirectory)
        }
    }

    /// Takes the tree below a directory into slot `kind`, and hands back
    /// the text to persist. `directory` is what the file system reported
    /// of the directory itself, `entries` what it reported of everything
    /// below it. Where the path leads to no directory, nothing changes.
    pub fn add_directory_to_staging(
        &mut self,
        kind: i32,
        directory: &Option<FileProbe>,
        entries: &Vec<(String, Option<FileProbe>)>,
    ) -> (r: Result<String, DvcsError>)
        requires
            old(self).wf(),
        ensures
            final(self).wf(),
            final(self).hidden() == old(self).hidden(),
            final(self).working_root() == old(self).working_root(),
            final(self).records() == if is_directory(*directory) {
                snapshot(old(self).records(), old(self).hidden(), kind as int, reports(entries@))
            } else {
                old(self).records()
            },
            final(self).paths() == if is_directory(*directory) {
                paths_after_snapshot(old(self).paths(), old(self).hidden(), reports(entries@))
            } else {
                old(self).paths()
            },
            match r {
                Ok(text) => is_directory(*directory) && text@ == index_text_of(
                    final(self).records(),
                ),
                Err(e) => e == DvcsError::NoSuchDirectory && !is_directory(*directory),
            },
    {
        self.set_staging_snapshot(kind, directory, entries)
    }

    /// Whether a repository that is opened on `text` has this index: the
    /// same paths, each with the same record. Asked of the text that was
    /// written of this index, it tells whether what was persisted will be
    /// loaded again as it is.
    pub fn is_loaded_from(&self, text: &str) -> (same: bool)
        requires
            self.wf(),
        ensures
            same == (index_of_text(text@) == Some(self.records())),
    {
        match read_from_staging_file(text) {
            Ok(index) => same_records(&self.index, &index),
            Err(_) => false,
        }
    }

    /// The paths that are staged, in the order of the index: the paths of
    /// which the working directory is to be asked before
    /// `update_staged_files`.
    pub fn staged_paths(&self) -> (staged: Vec<String>)
        requires
            self.wf(),
        ensures
            texts(staged@) == staged_among(self.paths(), self.records()),
    {
        let mut staged: Vec<String> = Vec::new();
        let ghost paths = self.paths();
        let ghost records = self.records();
        let mut i: usize = 0;
        assert(texts(staged@) =~= Seq::<Seq<char>>::empty());
        while i < self.index.len()
            invariant
                self.wf(),
                paths == self.paths(),
                records == self.records(),
                i <= paths.len(),
                texts(staged@) == staged_among(paths.take(i as int), records),
            decreases paths.len() - i,
        {
            proof {
                self.index.lemma_view_at(i as int);
                lemma_filter_next(
                    paths,
                    i as int,
                    |path: Seq<char>|
                        records.dom().contains(path) && records[path].staging.is_some(),
                );
            }
            let ghost so_far = texts(staged@);
            if self.index.value_at(i).staging.is_some() {
                staged.push(self.index.key_at(i).clone());
                assert(texts(staged@) =~= so_far.push(paths[i as int]));
            }
            i += 1;
        }
        proof {
            assert(paths.take(paths.len() as int) =~= paths);
        }
        staged
    }
}

/// The paths among `paths` that are staged, in their order.
pub open spec fn staged_among(
    paths: Seq<Seq<char>>,
    records: Map<Seq<char>, StagedComparisonView>,
) -> Seq<Seq<char>> {
    paths.filter(
        |path: Seq<char>| records.dom().contains(path) && records[path].staging.is_some(),
    )
}

/// Looking at the working directory again leaves every path alone of which
/// nothing is reported.
pub proof fn lemma_refresh_leaves_others(
    records: Map<Seq<char>, StagedComparisonView>,
    entries: Seq<(Seq<char>, Option<FileProbe>)>,
    path: Seq<char>,
)
    requires
        forall|i: int| 0 <= i < entries.len() ==> entries[i].0 != path,
    ensures
        refreshed(records, entries).dom().contains(path) == records.dom().contains(path),
        records.dom().contains(path) ==> refreshed(records, entries)[path] == records[path],
    decreases entries.len(),
{
    if entries.len() > 0 {
        assert forall|i: int| 0 <= i < entries.drop_last().len() implies entries.drop_last()[i].0
            != path by {
            assert(entries.drop_last()[i] == entries[i]);
        }
        lemma_refresh_leaves_others(records, entries.drop_last(), path);
        assert(entries.last() == entries[entries.len() - 1]);
    }
}

/// Whether a path is staged and differs from the working directory. A
/// path that lacks one of the two generations is not compared.
pub open spec fn is_changed_record(record: StagedComparisonView) -> bool {
    &&& record.staging.is_some()
    &&& record.working_directory.is_some()
    &&& !same_fingerprint(record.staging.unwrap(), record.working_directory.unwrap())
}

/// The staged paths that differ from the working directory, one written
/// after the other.
pub open spec fn changed_text(
    paths: Seq<Seq<char>>,
    records: Map<Seq<char>, StagedComparisonView>,
) -> Seq<char>
    decreases paths.len(),
{
    if paths.len() == 0 {
        Seq::empty()
    } else {
        let earlier = changed_text(paths.drop_last(), records);
        if is_changed_record(records[paths.last()]) {
            earlier + records[paths.last()].staging.unwrap().path
        } else {
            earlier
        }
    }
}

/// The report on what changed: a heading, then the changed paths.
pub open spec fn status_text(
    paths: Seq<Seq<char>>,
    records: Map<Seq<char>, StagedComparisonView>,
) -> Seq<char> {
    "changed:\n"@ + changed_text(paths, records)
}

impl Staging {
    /// Reports the staged paths that differ from the working directory, in
    /// the order of the index.
    pub fn status_report(&self) -> (report: String)
        requires
            self.wf(),
        ensures
            report@ == status_text(self.paths(), self.records()),
    {
        let mut report = String::from_str("changed:\n");
        let ghost paths = self.paths();
        let ghost records = self.records();
        let mut i: usize = 0;
        while i < self.index.len()
            invariant
                self.wf(),
                paths == self.paths(),
                records == self.records(),
                i <= paths.len(),
                report@ == "changed:\n"@ + changed_text(paths.take(i as int), records),
            decreases paths.len() - i,
        {
            let record = self.index.value_at(i);
            proof {
                self.index.lemma_view_at(i as int);
                assert(paths.take(i + 1).drop_last() =~= paths.take(i as int));
                assert(paths.take(i + 1).last() == paths[i as int]);
            }
            let ghost so_far = report@;
            match (&record.staging, &record.working_directory) {
                (Some(staged), Some(working)) => {
                    if !staged.matches(working) {
                        report.append(staged.path.as_str());
                        assert(report@ =~= "changed:\n"@ + changed_text(paths.take(i + 1), records));
                    }
                },
                _ => {},
            }
            i += 1;
        }
        proof {
            assert(paths.take(paths.len() as int) =~= paths);
        }
        report
    }
}

/// Whether the file system reported a directory.
pub open spec fn is_directory(probe: Option<FileProbe>) -> bool {
    probe.is_some() && !probe.unwrap().is_file
}

} // verus!
