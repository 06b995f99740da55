//! What the front end's commands decide, once the file system has been
//! asked: whether a command is carried out, which failure it reports, and
//! what is to be persisted afterwards.
//!
//! A command fails with the first of these that holds: the path does not
//! exist; no repository encloses it; the repository's index cannot be
//! read; the operation itself fails.

use vstd::prelude::*;
use vstd::string::StringExecFns;
use crate::error::DvcsError;
use crate::stager::Stager;
use crate::staging::{
    add_outcome, index_text_of, is_directory, loaded, records_after_add, records_after_remove,
    refreshed, reports, snapshot, status_text, FileProbe,
};
use crate::storage::{forward_diff, tree, RepositoryStorage};
use crate::text::chars_of;
use crate::textmap::TextMap;

verus! {

/// Why a command cannot start, if it cannot.
pub open spec fn refusal(
    exists: bool,
    located: Option<(String, String)>,
    index_text: Option<&str>,
) -> Option<DvcsError> {
    if !exists {
        Some(DvcsError::NotFound)
    } else if located.is_none() {
        Some(DvcsError::NoSuchRepository)
    } else if loaded(index_text).is_none() {
        Some(DvcsError::CorruptIndex)
    } else {
        None
    }
}

/// A report of one failure.
fn failure(e: DvcsError) -> (errors: Vec<DvcsError>)
    ensures
        errors@ == seq![e],
{
    let mut errors: Vec<DvcsError> = Vec::new();
    errors.push(e);
    errors
}

/// Opens the index of the repository that encloses a path.
fn open(exists: bool, located: &Option<(String, String)>, index_text: Option<&str>) -> (r: Result<
    Stager,
    DvcsError,
>)
    ensures
        match r {
            Ok(stager) => {
                &&& refusal(exists, *located, index_text).is_none()
                &&& stager.wf()
                &&& loaded(index_text) == Some(stager.records())
                &&& stager.staging().hidden() == located.unwrap().0@
                &&& stager.staging().working_root() == located.unwrap().1@
            },
            Err(e) => refusal(exists, *located, index_text) == Some(e),
        },
{
    if !exists {
        return Err(DvcsError::NotFound);
    }
    match located {
        Some(repository) => Stager::new(
            repository.0.as_str(),
            repository.1.as_str(),
            true,
            index_text,
        ),
        None => Err(DvcsError::NoSuchRepository),
    }
}

/// Stages a path of a repository and hands back the text to persist. It
/// succeeds exactly if the command can start, a path is given and the path
/// could be fingerprinted.
pub fn add_in(
    file_path: String,
    exists: bool,
    located: &Option<(String, String)>,
    index_text: Option<&str>,
    probe: &Option<FileProbe>,
) -> (r: Result<String, Vec<DvcsError>>)
    ensures
        match r {
            Ok(text) => {
                &&& refusal(exists, *located, index_text).is_none()
                &&& file_path@.len() > 0
                &&& add_outcome(*probe, false).is_ok()
                &&& text@ == index_text_of(
                    records_after_add(loaded(index_text).unwrap(), file_path@, 0, *probe, false),
                )
            },
            Err(errors) => errors@.len() == 1 && match refusal(exists, *located, index_text) {
                Some(e) => errors@[0] == e,
                None => if file_path@.len() == 0 {
                    errors@[0] == DvcsError::EmptyPath
                } else {
                    add_outcome(*probe, false) == Err::<(), DvcsError>(errors@[0])
                },
            },
        },
{
    match open(exists, located, index_text) {
        Ok(stager) => match stager.add(file_path, probe) {
            Ok(text) => Ok(text),
            Err(e) => Err(failure(e)),
        },
        Err(e) => Err(failure(e)),
    }
}

/// Takes a path of a repository out of the staging area and hands back the
/// text to persist. It succeeds exactly if the command can start, a path
/// is given and the path is tracked.
pub fn remove_in(
    file_path: String,
    exists: bool,
    located: &Option<(String, String)>,
    index_text: Option<&str>,
) -> (r: Result<String, Vec<DvcsError>>)
    ensures
        match r {
            Ok(text) => {
                &&& refusal(exists, *located, index_text).is_none()
                &&& file_path@.len() > 0
                &&& loaded(index_text).unwrap().dom().contains(file_path@)
                &&& text@ == index_text_of(
                    records_after_remove(loaded(index_text).unwrap(), file_path@),
                )
            },
            Err(errors) => errors@.len() == 1 && match refusal(exists, *located, index_text) {
                Some(e) => errors@[0] == e,
                None => if file_path@.len() == 0 {
                    errors@[0] == DvcsError::EmptyPath
                } else {
                    &&& errors@[0] == DvcsError::NoSuchEntry
                    &&& !loaded(index_text).unwrap().dom().contains(file_path@)
                },
            },
        },
{
    match open(exists, located, index_text) {
        Ok(stager) => match stager.remove(file_path) {
            Ok(text) => Ok(text),
            Err(e) => Err(failure(e)),
        },
        Err(e) => Err(failure(e)),
    }
}

/// Reports the staged paths of a repository that differ from the working
/// directory. `probes` holds what the file system now reports of the
/// staged paths. Beside the report stands the text to persist. It
/// succeeds exactly if the command can start and a path is given.
pub fn status_in(
    file_path: String,
    exists: bool,
    located: &Option<(String, String)>,
    index_text: Option<&str>,
    probes: &Vec<(String, Option<FileProbe>)>,
) -> (r: Result<(String, String), Vec<DvcsError>>)
    ensures
        match r {
            Ok(outcome) => {
                let after = refreshed(loaded(index_text).unwrap(), reports(probes@));
                &&& refusal(exists, *located, index_text).is_none()
                &&& file_path@.len() > 0
                &&& exists|paths: Seq<Seq<char>>|
                    {
                        &&& forall|p: Seq<char>| paths.contains(p) <==> after.dom().contains(p)
                        &&& paths.no_duplicates()
                        &&& outcome.0@ == status_text(paths, after)
                    }
                &&& outcome.1@ == index_text_of(after)
            },
            Err(errors) => errors@.len() == 1 && match refusal(exists, *located, index_text) {
                Some(e) => errors@[0] == e,
                None => errors@[0] == DvcsError::EmptyPath && file_path@.len() == 0,
            },
        },
{
    match open(exists, located, index_text) {
        Ok(stager) => {
            let mut stager = stager;
            match stager.status(file_path, probes) {
                Ok(report) => {
                    proof {
                        stager.staging().lemma_paths_are_tracked();
                        stager.staging().lemma_paths_are_distinct();
                        let paths = stager.staging().paths();
                        let after = refreshed(loaded(index_text).unwrap(), reports(probes@));
                        assert(forall|p: Seq<char>| paths.contains(p) <==> after.dom().contains(p));
                    }
                    match stager.index_text() {
                        Ok(text) => Ok((report, text)),
                        Err(e) => Err(failure(e)),
                    }
                },
                Err(e) => Err(failure(e)),
            }
        },
        Err(e) => Err(failure(e)),
    }
}

/// The difference between a path of a repository and a revision of it.
/// Differences of content are not computed: the result is empty wherever
/// the command can start.
pub fn diff_in(
    file_path: String,
    head: String,
    exists: bool,
    located: &Option<(String, String)>,
    index_text: Option<&str>,
) -> (r: Result<String, Vec<DvcsError>>)
    ensures
        match r {
            Ok(diff) => refusal(exists, *located, index_text).is_none() && diff@ == Seq::<
                char,
            >::empty(),
            Err(errors) => errors@.len() == 1 && refusal(exists, *located, index_text) == Some(
                errors@[0],
            ),
        },
{
    match open(exists, located, index_text) {
        Ok(stager) => match stager.diff(file_path, head) {
            Ok(diff) => Ok(diff),
            Err(e) => Err(failure(e)),
        },
        Err(e) => Err(failure(e)),
    }
}

/// The folder of a repository's own files, below the repository's root.
pub open spec fn hidden_path(root: Seq<char>, hidden_name: Seq<char>) -> Seq<char> {
    if root.len() > 0 && root.last() == '/' {
        root + hidden_name
    } else {
        root + seq!['/'] + hidden_name
    }
}

/// Why a repository cannot be prepared, if it cannot.
pub open spec fn init_refusal(
    file_path: Seq<char>,
    exists: bool,
    holds_entries: bool,
    index_text: Option<&str>,
    directory: Option<FileProbe>,
) -> Option<DvcsError> {
    if !exists {
        Some(DvcsError::NotFound)
    } else if loaded(index_text).is_none() {
        Some(DvcsError::CorruptIndex)
    } else if file_path.len() == 0 {
        Some(DvcsError::EmptyPath)
    } else if !holds_entries && !is_directory(directory) {
        Some(DvcsError::NoSuchDirectory)
    } else {
        None
    }
}

/// Prepares a repository in the directory `file_path`, whose own folder
/// has the name `hidden_name`. A directory that holds something already is
/// left alone, and there is nothing to persist. For an empty one,
/// `directory` is what the file system reported of it and `entries` what a
/// walk of it found; they become the first snapshot, and the text to
/// persist is handed back.
pub fn init_in(
    file_path: String,
    hidden_name: &str,
    exists: bool,
    holds_entries: bool,
    index_text: Option<&str>,
    directory: &Option<FileProbe>,
    entries: &Vec<(String, Option<FileProbe>)>,
) -> (r: Result<Option<String>, Vec<DvcsError>>)
    ensures
        match r {
            Ok(persisted) => {
                &&& init_refusal(file_path@, exists, holds_entries, index_text, *directory).is_none()
                &&& match persisted {
                    None => holds_entries,
                    Some(text) => !holds_entries && text@ == index_text_of(
                        snapshot(
                            loaded(index_text).unwrap(),
                            hidden_path(file_path@, hidden_name@),
                            1,
                            reports(entries@),
                        ),
                    ),
                }
            },
            Err(errors) => errors@.len() == 1 && init_refusal(
                file_path@,
                exists,
                holds_entries,
                index_text,
                *directory,
            ) == Some(errors@[0]),
        },
{
    if !exists {
        return Err(failure(DvcsError::NotFound));
    }
    let letters = chars_of(file_path.as_str());
    let mut hidden = file_path.clone();
    if letters.len() == 0 || letters[letters.len() - 1] != '/' {
        hidden.append("/");
    }
    hidden.append(hidden_name);
    proof {
        reveal_strlit("/");
        assert(hidden@ =~= hidden_path(file_path@, hidden_name@));
    }
    match Stager::new(hidden.as_str(), file_path.as_str(), true, index_text) {
        Ok(stager) => match stager.init(file_path, holds_entries, directory, entries) {
            Ok(text) => Ok(text),
            Err(e) => Err(failure(e)),
        },
        Err(e) => Err(failure(e)),
    }
}

/// What changed in a fresh repository since `snapshot` was taken: nothing,
/// as a fresh repository holds nothing.
pub fn see_diff_in(snapshot: &TextMap<String>) -> (r: (TextMap<String>, bool))
    requires
        snapshot.wf(),
    ensures
        r.0.wf(),
        tree(r.0@) == Map::<Seq<char>, Seq<char>>::empty(),
        r.1,
{
    let repo = RepositoryStorage::new();
    let diff = repo.see_diff(snapshot);
    proof {
        assert(forward_diff(repo@, tree(snapshot@)) =~= Map::<Seq<char>, Seq<char>>::empty());
    }
    (diff, true)
}

} // verus!
