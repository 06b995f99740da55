//! The operations of the front end on one repository: staging and
//! unstaging a path, the status of the working directory, and a first
//! snapshot of a fresh repository.

use vstd::prelude::*;
use crate::error::DvcsError;
use crate::text::texts;
use crate::staging::{
    add_outcome, index_text_of, is_directory, loaded, records_after_add, records_after_remove,
    refreshed, reports, snapshot, staged_among, status_text, FileProbe, StagedComparisonView,
    Staging,
};

verus! {

/// A repository as the front end knows it.
#[derive(Debug)]
pub struct Repo {
    pub root_path: String,
    pub head: String,
    pub modified: bool,
}

#[derive(Debug, Clone)]
pub struct Stager {
    staging: Staging,
}

impl Stager {
    /// The index that the stager works on.
    pub closed spec fn staging(&self) -> Staging {
        self.staging
    }

    pub open spec fn wf(&self) -> bool {
        self.staging().wf()
    }

    /// The record of each tracked path.
    pub open spec fn records(&self) -> Map<Seq<char>, StagedComparisonView> {
        self.staging().records()
    }

    /// Opens the index of a repository, as `Staging::new` does.
    pub fn new(
        dvcs_hidden: &str,
        working_directory: &str,
        repo_exists: bool,
        index_text: Option<&str>,
    ) -> (r: Result<Stager, DvcsError>)
        ensures
            match r {
                Ok(stager) => {
                    &&& repo_exists
                    &&& stager.wf()
                    &&& loaded(index_text) == Some(stager.records())
                    &&& stager.staging().hidden() == dvcs_hidden@
                    &&& stager.staging().working_root() == working_directory@
                },
                Err(e) => if repo_exists {
                    e == DvcsError::CorruptIndex && loaded(index_text).is_none()
                } else {
                    e == DvcsError::NoSuchRepository
                },
            },
    {
        match Staging::new(dvcs_hidden, working_directory, repo_exists, index_text) {
            Ok(staging) => Ok(Stager { staging }),
            Err(e) => Err(e),
        }
    }

    /// The text to persist: the whole index as one document. Every index
    /// can be written.
    pub fn index_text(&self) -> (r: Result<String, DvcsError>)
        requires
            self.wf(),
        ensures
            r.is_ok(),
            r.unwrap()@ == index_text_of(self.records()),
    {
        self.staging.write_to_staging_file()
    }

    /// The difference between a path and a revision of it. Differences of
    /// content are not computed: the result is empty.
    fn show_diff(current_path: String, revision: String) -> (diff: String)
        ensures
            diff@ == Seq::<char>::empty(),
    {
        String::new()
    }

    /// The difference between a path and a revision of it. Differences of
    /// content are not computed: the result is empty for every revision.
    pub fn diff(self, file_path: String, head: String) -> (r: Result<String, DvcsError>)
        ensures
            r.is_ok(),
            r.unwrap()@ == Seq::<char>::empty(),
    {
        if head.as_str().is_empty() {
            Ok(String::new())
        } else {
            Ok(Self::show_diff(file_path, head))
        }
    }

    /// Looks at the working directory again and reports the staged paths
    /// that differ from it. `probes` holds what the file system now reports
    /// of the staged paths.
    pub fn status(&mut self, file_path: String, probes: &Vec<(String, Option<FileProbe>)>) -> (r:
        Result<String, DvcsError>)
        requires
            old(self).wf(),
        ensures
            final(self).wf(),
            final(self).staging().hidden() == old(self).staging().hidden(),
            final(self).staging().working_root() == old(self).staging().working_root(),
            match r {
                Ok(report) => {
                    &&& file_path@.len() > 0
                    &&& final(self).records() == refreshed(old(self).records(), reports(probes@))
                    &&& final(self).staging().paths() == old(self).staging().paths()
                    &&& report@ == status_text(old(self).staging().paths(), final(self).records())
                },
                Err(e) => {
                    &&& e == DvcsError::EmptyPath
                    &&& file_path@.len() == 0
                    &&& final(self).records() == old(self).records()
                    &&& final(self).staging().paths() == old(self).staging().paths()
                },
            },
    {
        if file_path.as_str().is_empty() {
            return Err(DvcsError::EmptyPath);
        }
        let _ = self.staging.update_staged_files(probes);
        Ok(self.staging.status_report())
    }

    /// The paths that are staged, in the order of the index: the paths of
    /// which the working directory is to be asked before `status`.
    pub fn staged_paths(&self) -> (staged: Vec<String>)
        requires
            self.wf(),
        ensures
            texts(staged@) == staged_among(self.staging().paths(), self.records()),
    {
        self.staging.staged_paths()
    }

    /// Stages a path and hands back the text to persist. It succeeds
    /// exactly if a path is given and could be fingerprinted.
    pub fn add(self, file_path: String, probe: &Option<FileProbe>) -> (r: Result<String, DvcsError>)
        requires
            self.wf(),
        ensures
            match r {
                Ok(text) => {
                    &&& file_path@.len() > 0
                    &&& add_outcome(*probe, false).is_ok()
                    &&& text@ == index_text_of(
                        records_after_add(self.records(), file_path@, 0, *probe, false),
                    )
                },
                Err(e) => if file_path@.len() == 0 {
                    e == DvcsError::EmptyPath
                } else {
                    add_outcome(*probe, false) == Err::<(), DvcsError>(e)
                },
            },
    {
        if file_path.as_str().is_empty() {
            return Err(DvcsError::EmptyPath);
        }
        let mut staging = self.staging;
        staging.add_file_to_staging(file_path.as_str(), probe)
    }

    /// Takes a path out of the staging area and hands back the text to
    /// persist. It succeeds exactly if a path is given and is tracked.
    pub fn remove(self, file_path: String) -> (r: Result<String, DvcsError>)
        requires
            self.wf(),
        ensures
            match r {
                Ok(text) => {
                    &&& file_path@.len() > 0
                    &&& self.records().dom().contains(file_path@)
                    &&& text@ == index_text_of(records_after_remove(self.records(), file_path@))
                },
                Err(e) => if file_path@.len() == 0 {
                    e == DvcsError::EmptyPath
                } else {
                    e == DvcsError::NoSuchEntry && !self.records().dom().contains(file_path@)
                },
            },
    {
        if file_path.as_str().is_empty() {
            return Err(DvcsError::EmptyPath);
        }
        let mut staging = self.staging;
        staging.remove_file_from_staging(file_path.as_str())
    }

    /// Prepares a repository in a directory. A directory that holds
    /// something already is left alone, and there is nothing to persist.
    /// For an empty one the working directory is walked and becomes the
    /// first snapshot: `directory` is what the file system reported of the
    /// working directory itself, `entries` what the walk found below it.
    pub fn init(
        self,
        file_path: String,
        holds_entries: bool,
        directory: &Option<FileProbe>,
        entries: &Vec<(String, Option<FileProbe>)>,
    ) -> (r: Result<Option<String>, DvcsError>)
        requires
            self.wf(),
        ensures
            match r {
                Ok(None) => file_path@.len() > 0 && holds_entries,
                Ok(Some(text)) => {
                    &&& file_path@.len() > 0
                    &&& !holds_entries
                    &&& is_directory(*directory)
                    &&& text@ == index_text_of(
                        snapshot(self.records(), self.staging().hidden(), 1, reports(entries@)),
                    )
                },
                Err(e) => if file_path@.len() == 0 {
                    e == DvcsError::EmptyPath
                } else {
                    e == DvcsError::NoSuchDirectory && !holds_entries && !is_directory(*directory)
                },
            },
    {
        if file_path.as_str().is_empty() {
            return Err(DvcsError::EmptyPath);
        }
        if holds_entries {
            return Ok(None);
        }
        let mut staging = self.staging;
        match staging.set_staging_snapshot(1, directory, entries) {
            Ok(text) => Ok(Some(text)),
            Err(e) => Err(e),
        }
    }
}

} // verus!
