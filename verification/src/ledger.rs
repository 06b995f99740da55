//! The commit ledger: the history of commits, the head of each branch and
//! the history of each file.
//!
//! A commit is known by its message alone. The history only grows; the head
//! of a branch is whatever was committed to it last.

use vstd::prelude::*;
use vstd::string::StringExecFns;
use crate::codec::{find_field, lemma_no_fields, lemma_object_view, put};
use crate::error::DvcsError;
use crate::json::{parse, parsed, render, rendered, Json};
use crate::ledger_codec::{
    document_ledger, files_json, heads_json, json_files, json_heads, json_texts,
    ledger_document, lemma_ledger_round_trip, texts_json, LedgerView,
};
use crate::text::{clone_texts, contains_text, texts};
use crate::textmap::TextMap;

verus! {

/// The line that a commit leaves in the history of a file.
pub open spec fn entry(id: Seq<char>, content: Seq<char>) -> Seq<char> {
    id + seq![':'] + content
}

/// The history of `path`, empty where the path is not tracked.
pub open spec fn history_of(
    files: Map<Seq<char>, Seq<Seq<char>>>,
    path: Seq<char>,
) -> Seq<Seq<char>> {
    if files.dom().contains(path) {
        files[path]
    } else {
        Seq::empty()
    }
}

/// The committed files as pairs of path and content.
pub open spec fn file_pairs(files: Seq<(String, String)>) -> Seq<(Seq<char>, Seq<char>)> {
    files.map_values(|f: (String, String)| (f.0@, f.1@))
}

/// The file histories after commit `id` has recorded `files`, one after the
/// other: each file's history grows by one line.
pub open spec fn record_files(
    before: Map<Seq<char>, Seq<Seq<char>>>,
    id: Seq<char>,
    files: Seq<(Seq<char>, Seq<char>)>,
) -> Map<Seq<char>, Seq<Seq<char>>>
    decreases files.len(),
{
    if files.len() == 0 {
        before
    } else {
        let earlier = record_files(before, id, files.drop_last());
        let (path, content) = files.last();
        earlier.insert(path, history_of(earlier, path).push(entry(id, content)))
    }
}

/// The message under which `id` is found in the history: `id` itself where
/// the history holds it, the empty message where it does not.
pub open spec fn recalled(history: Seq<Seq<char>>, id: Seq<char>) -> Seq<char> {
    if history.contains(id) {
        id
    } else {
        Seq::empty()
    }
}

/// The messages recalled for `ids`, each followed by a line break.
pub open spec fn joined(history: Seq<Seq<char>>, ids: Seq<Seq<char>>) -> Seq<char>
    decreases ids.len(),
{
    if ids.len() == 0 {
        Seq::empty()
    } else {
        joined(history, ids.drop_last()) + recalled(history, ids.last()) + seq!['\n']
    }
}

/// Branch heads as a map from branch to commit.
pub open spec fn heads_of(m: Map<Seq<char>, String>) -> Map<Seq<char>, Seq<char>> {
    m.map_values(|s: String| s@)
}

/// File histories as a map from path to lines.
pub open spec fn logs_of(m: Map<Seq<char>, Vec<String>>) -> Map<Seq<char>, Seq<Seq<char>>> {
    m.map_values(|v: Vec<String>| texts(v@))
}

/// The ledger that the text of a ledger file stands for in the folder
/// `root`. An empty file stands for a ledger without commits.
pub open spec fn ledger_of_text(root: Seq<char>, text: Seq<char>) -> Option<LedgerView> {
    if text.len() == 0 {
        Some(
            LedgerView {
                history: Seq::empty(),
                heads: Map::empty(),
                files: Map::empty(),
                root,
            },
        )
    } else {
        match parsed(text) {
            Some(document) => document_ledger(document),
            None => None,
        }
    }
}

/// The ledger that a repository starts from: what its ledger file stands
/// for, or a ledger without commits where it has no such file yet.
pub open spec fn ledger_loaded(root: Seq<char>, repo_text: Option<&str>) -> Option<LedgerView> {
    match repo_text {
        Some(text) => ledger_of_text(root, text@),
        None => ledger_of_text(root, Seq::empty()),
    }
}

/// Where the text that is written of a ledger is read as the document that
/// was written, a repository that is opened on that text has the same
/// ledger. What is assumed is said of the reading and writing of text
/// alone, which is not this library's work.
pub proof fn lemma_written_ledger_is_loaded(
    ledger: LedgerView,
    root: Seq<char>,
    repo_text: Option<&str>,
)
    requires
        repo_text.is_some(),
        repo_text.unwrap()@ == rendered(ledger_document(ledger)),
        repo_text.unwrap()@.len() > 0,
        parsed(rendered(ledger_document(ledger))) == Some(ledger_document(ledger)),
    ensures
        ledger_loaded(root, repo_text) == Some(ledger),
{
    lemma_ledger_round_trip(ledger);
}

#[derive(Debug)]
pub struct RepositoryController {
    commit_history: Vec<String>,
    branch_heads: TextMap<String>,
    file_history: TextMap<Vec<String>>,
    dvcs_hidden: String,
}

impl RepositoryController {
    /// No branch and no file occurs twice.
    pub closed spec fn wf(&self) -> bool {
        self.branch_heads.wf() && self.file_history.wf()
    }

    /// The commits, oldest first.
    pub closed spec fn history(&self) -> Seq<Seq<char>> {
        texts(self.commit_history@)
    }

    /// The branches, in the order of their first commit.
    pub closed spec fn branches(&self) -> Seq<Seq<char>> {
        self.branch_heads.keys()
    }

    /// The head of each branch.
    pub closed spec fn heads_map(&self) -> Map<Seq<char>, Seq<char>> {
        heads_of(self.branch_heads@)
    }

    /// The history of each file.
    pub closed spec fn files_map(&self) -> Map<Seq<char>, Seq<Seq<char>>> {
        logs_of(self.file_history@)
    }

    /// The folder that the ledger belongs to.
    pub closed spec fn root(&self) -> Seq<char> {
        self.dvcs_hidden@
    }

    /// The ledger as a mathematical value.
    pub open spec fn view(&self) -> LedgerView {
        LedgerView {
            history: self.history(),
            heads: self.heads_map(),
            files: self.files_map(),
            root: self.root(),
        }
    }

    /// A branch has a head exactly if it is one of the branches.
    pub proof fn lemma_branches_have_heads(&self)
        requires
            self.wf(),
        ensures
            forall|b: Seq<char>| self.branches().contains(b) <==> self.heads_map().dom().contains(b),
    {
    }

    /// No branch occurs twice among the branches.
    pub proof fn lemma_branches_are_distinct(&self)
        requires
            self.wf(),
        ensures
            self.branches().no_duplicates(),
    {
    }

    /// A ledger without commits.
    pub fn empty(dvcs_hidden: &str) -> (ledger: RepositoryController)
        ensures
            ledger.wf(),
            ledger.history() == Seq::<Seq<char>>::empty(),
            ledger.branches() == Seq::<Seq<char>>::empty(),
            ledger.heads_map() == Map::<Seq<char>, Seq<char>>::empty(),
            ledger.files_map() == Map::<Seq<char>, Seq<Seq<char>>>::empty(),
            ledger.root() == dvcs_hidden@,
    {
        let ledger = RepositoryController {
            commit_history: Vec::new(),
            branch_heads: TextMap::new(),
            file_history: TextMap::new(),
            dvcs_hidden: String::from_str(dvcs_hidden),
        };
        assert(ledger.history() =~= Seq::<Seq<char>>::empty());
        assert(ledger.heads_map() =~= Map::<Seq<char>, Seq<char>>::empty());
        assert(ledger.files_map() =~= Map::<Seq<char>, Seq<Seq<char>>>::empty());
        ledger
    }

    /// Records a commit on `branch`: the branch's head becomes
    /// `commit_message`, the history grows by it, and each committed file's
    /// history grows by one line.
    pub fn commit(&mut self, branch: &str, commit_message: String, files: Vec<(String, String)>)
        requires
            old(self).wf(),
        ensures
            final(self).wf(),
            final(self).history() == old(self).history().push(commit_message@),
            final(self).heads_map() == old(self).heads_map().insert(branch@, commit_message@),
            final(self).branches() == if old(self).branches().contains(branch@) {
                old(self).branches()
            } else {
                old(self).branches().push(branch@)
            },
            final(self).files_map() == record_files(
                old(self).files_map(),
                commit_message@,
                file_pairs(files@),
            ),
            final(self).root() == old(self).root(),
    {
        self.branch_heads.insert(String::from_str(branch), commit_message.clone());
        self.commit_history.push(commit_message.clone());
        proof {
            assert(self.history() =~= old(self).history().push(commit_message@));
            assert(self.heads_map() =~= old(self).heads_map().insert(branch@, commit_message@));
        }
        let ghost heads = self.branch_heads;
        let ghost history = self.commit_history;
        let ghost root = self.dvcs_hidden;
        let ghost before = old(self).files_map();
        let ghost pairs = file_pairs(files@);
        let mut i: usize = 0;
        while i < files.len()
            invariant
                i <= files.len(),
                self.branch_heads == heads,
                self.commit_history == history,
                self.dvcs_hidden == root,
                self.file_history.wf(),
                pairs == file_pairs(files@),
                self.files_map() == record_files(before, commit_message@, pairs.take(i as int)),
            decreases files.len() - i,
        {
            let path = files[i].0.clone();
            let mut line = commit_message.clone();
            line.append(":");
            line.append(files[i].1.as_str());
            let mut log = match self.file_history.get(path.as_str()) {
                Some(lines) => clone_texts(lines),
                None => Vec::new(),
            };
            let ghost earlier = self.files_map();
            let ghost log_before = texts(log@);
            log.push(line);
            self.file_history.insert(path, log);
            proof {
                reveal_strlit(":");
                assert(":"@ =~= seq![':']);
                assert(line@ =~= entry(commit_message@, files@[i as int].1@));
                assert(log_before =~= history_of(earlier, path@));
                assert(texts(log@) =~= log_before.push(line@));
                assert(pairs.take(i + 1).drop_last() =~= pairs.take(i as int));
                assert(pairs.take(i + 1).last() == (path@, files@[i as int].1@));
                assert(self.files_map() =~= earlier.insert(path@, texts(log@)));
            }
            i += 1;
        }
        proof {
            assert(pairs.take(files.len() as int) =~= pairs);
        }
    }

    /// The commits, oldest first.
    pub fn log(&self) -> (commits: Vec<String>)
        ensures
            texts(commits@) == self.history(),
    {
        clone_texts(&self.commit_history)
    }

    /// The head of every branch, in the order of the branches.
    pub fn heads(&self) -> (heads: Vec<String>)
        requires
            self.wf(),
        ensures
            heads.len() == self.branches().len(),
            forall|i: int|
                0 <= i < heads.len() ==> heads@[i]@ == self.heads_map()[self.branches()[i]],
    {
        let mut heads: Vec<String> = Vec::new();
        let mut i: usize = 0;
        while i < self.branch_heads.len()
            invariant
                self.wf(),
                i <= self.branches().len(),
                heads.len() == i,
                forall|j: int| 0 <= j < i ==> heads@[j]@ == self.heads_map()[self.branches()[j]],
            decreases self.branches().len() - i,
        {
            proof {
                self.branch_heads.lemma_view_at(i as int);
            }
            heads.push(self.branch_heads.value_at(i).clone());
            i += 1;
        }
        heads
    }

    /// The head of `branch`, if anything was committed to it.
    pub fn head_of(&self, branch: &str) -> (head: Option<String>)
        requires
            self.wf(),
        ensures
            match head {
                Some(id) => self.heads_map().dom().contains(branch@) && id@ == self.heads_map()[branch@],
                None => !self.heads_map().dom().contains(branch@),
            },
    {
        match self.branch_heads.get(branch) {
            Some(id) => Some(id.clone()),
            None => None,
        }
    }

    /// The whole history, oldest first.
    pub fn retrieve_all_history(&self) -> (commits: Vec<String>)
        ensures
            texts(commits@) == self.history(),
    {
        clone_texts(&self.commit_history)
    }

    /// The history of one file; empty where the file is not tracked.
    pub fn retrieve_commit_history(&self, path: &str) -> (lines: Vec<String>)
        requires
            self.wf(),
        ensures
            texts(lines@) == history_of(self.files_map(), path@),
    {
        match self.file_history.get(path) {
            Some(lines) => clone_texts(lines),
            None => {
                let lines: Vec<String> = Vec::new();
                assert(texts(lines@) =~= Seq::<Seq<char>>::empty());
                lines
            },
        }
    }

    /// The message under which `commit_hash` is found in the history.
    fn recall(&self, commit_hash: &String) -> (message: String)
        ensures
            message@ == recalled(self.history(), commit_hash@),
    {
        if contains_text(&self.commit_history, commit_hash) {
            commit_hash.clone()
        } else {
            String::new()
        }
    }

    /// Commits to `branch` the messages of `commit_hashes`, one per line, as
    /// one new commit without files.
    pub fn concatenate(&mut self, branch: &str, commit_hashes: Vec<String>)
        requires
            old(self).wf(),
        ensures
            final(self).wf(),
            final(self).history() == old(self).history().push(
                joined(old(self).history(), texts(commit_hashes@)),
            ),
            final(self).heads_map() == old(self).heads_map().insert(
                branch@,
                joined(old(self).history(), texts(commit_hashes@)),
            ),
            final(self).branches() == if old(self).branches().contains(branch@) {
                old(self).branches()
            } else {
                old(self).branches().push(branch@)
            },
            final(self).files_map() == old(self).files_map(),
            final(self).root() == old(self).root(),
    {
        let mut message = String::new();
        let ghost ids = texts(commit_hashes@);
        let mut i: usize = 0;
        while i < commit_hashes.len()
            invariant
                i <= commit_hashes.len(),
                ids == texts(commit_hashes@),
                *self == *old(self),
                message@ == joined(self.history(), ids.take(i as int)),
            decreases commit_hashes.len() - i,
        {
            let found = self.recall(&commit_hashes[i]);
            let ghost so_far = message@;
            message.append(found.as_str());
            message.append("\n");
            proof {
                reveal_strlit("\n");
                assert("\n"@ =~= seq!['\n']);
                assert(ids.take(i + 1).drop_last() =~= ids.take(i as int));
                assert(ids.take(i + 1).last() == commit_hashes@[i as int]@);
                assert(message@ =~= so_far + found@ + seq!['\n']);
            }
            i += 1;
        }
        proof {
            assert(ids.take(commit_hashes.len() as int) =~= ids);
        }
        let files: Vec<(String, String)> = Vec::new();
        proof {
            assert(file_pairs(files@) =~= Seq::<(Seq<char>, Seq<char>)>::empty());
        }
        self.commit(branch, message, files);
    }

    /// Commits to `branch` once more the message found under `commit_hash`.
    /// The history grows; no file is restored.
    pub fn checkout(&mut self, branch: &str, commit_hash: &str)
        requires
            old(self).wf(),
        ensures
            final(self).wf(),
            final(self).history() == old(self).history().push(
                recalled(old(self).history(), commit_hash@),
            ),
            final(self).heads_map() == old(self).heads_map().insert(
                branch@,
                recalled(old(self).history(), commit_hash@),
            ),
            final(self).branches() == if old(self).branches().contains(branch@) {
                old(self).branches()
            } else {
                old(self).branches().push(branch@)
            },
            final(self).files_map() == old(self).files_map(),
            final(self).root() == old(self).root(),
    {
        let message = self.recall(&String::from_str(commit_hash));
        let files: Vec<(String, String)> = Vec::new();
        proof {
            assert(file_pairs(files@) =~= Seq::<(Seq<char>, Seq<char>)>::empty());
        }
        self.commit(branch, message, files);
    }

    /// Writes the ledger as a document.
    pub fn to_json(&self) -> (j: Json)
        requires
            self.wf(),
        ensures
            j@ == ledger_document(self@),
    {
        let mut fields: Vec<(String, Json)> = Vec::new();
        proof {
            lemma_no_fields();
        }
        put(&mut fields, "commit_history", texts_json(&self.commit_history));
        put(&mut fields, "branch_heads", heads_json(&self.branch_heads));
        put(&mut fields, "file_history", files_json(&self.file_history));
        put(&mut fields, "dvcs_hidden", Json::Text(self.dvcs_hidden.clone()));
        proof {
            lemma_object_view(fields);
        }
        Json::Object(fields)
    }

    /// Reads a ledger from a document.
    pub fn from_json(j: &Json) -> (r: Option<RepositoryController>)
        ensures
            match r {
                Some(ledger) => ledger.wf() && document_ledger(j@) == Some(ledger@),
                None => document_ledger(j@).is_none(),
            },
    {
        match j {
            Json::Object(fields) => {
                proof {
                    lemma_object_view(*fields);
                }
                let commit_history = match find_field(fields, "commit_history") {
                    Some(document) => match json_texts(document) {
                        Some(history) => history,
                        None => {
                            return None;
                        },
                    },
                    None => {
                        return None;
                    },
                };
                let branch_heads = match find_field(fields, "branch_heads") {
                    Some(document) => match json_heads(document) {
                        Some(heads) => heads,
                        None => {
                            return None;
                        },
                    },
                    None => {
                        return None;
                    },
                };
                let file_history = match find_field(fields, "file_history") {
                    Some(document) => match json_files(document) {
                        Some(files) => files,
                        None => {
                            return None;
                        },
                    },
                    None => {
                        return None;
                    },
                };
                let dvcs_hidden = match find_field(fields, "dvcs_hidden") {
                    Some(document) => match document {
                        Json::Text(t) => t.clone(),
                        _ => {
                            return None;
                        },
                    },
                    None => {
                        return None;
                    },
                };
                Some(RepositoryController { commit_history, branch_heads, file_history, dvcs_hidden })
            },
            _ => None,
        }
    }

    /// The text to persist: the whole ledger as one document. Every ledger
    /// can be written.
    pub fn save_locally(&self) -> (r: Result<String, DvcsError>)
        requires
            self.wf(),
        ensures
            r.is_ok(),
            r.unwrap()@ == rendered(ledger_document(self@)),
    {
        let document = self.to_json();
        render(&document)
    }

    /// Reads the ledger of the folder `dvcs_hidden` from the text of its
    /// ledger file.
    pub fn read_from_repo_from_file(dvcs_hidden: &str, text: &str) -> (r: Result<
        RepositoryController,
        DvcsError,
    >)
        ensures
            match r {
                Ok(ledger) => ledger.wf() && ledger_of_text(dvcs_hidden@, text@) == Some(ledger@),
                Err(e) => e == DvcsError::CorruptIndex && ledger_of_text(
                    dvcs_hidden@,
                    text@,
                ).is_none(),
            },
    {
        if text.is_empty() {
            return Ok(Self::empty(dvcs_hidden));
        }
        match parse(text) {
            Ok(document) => match Self::from_json(&document) {
                Some(ledger) => Ok(ledger),
                None => Err(DvcsError::CorruptIndex),
            },
            Err(e) => Err(e),
        }
    }

    /// Opens the ledger of a repository. The folder must exist. Where it
    /// has no ledger file yet the ledger is without commits; where it has
    /// one, the file must stand for a ledger.
    pub fn new(dvcs_hidden: &str, exists: bool, repo_text: Option<&str>) -> (r: Result<
        RepositoryController,
        DvcsError,
    >)
        ensures
            match r {
                Ok(ledger) => {
                    &&& exists
                    &&& ledger.wf()
                    &&& ledger_loaded(dvcs_hidden@, repo_text) == Some(ledger@)
                },
                Err(e) => if exists {
                    e == DvcsError::CorruptIndex && ledger_loaded(dvcs_hidden@, repo_text).is_none()
                } else {
                    e == DvcsError::NoSuchRepository
                },
            },
    {
        if !exists {
            return Err(DvcsError::NoSuchRepository);
        }
        match repo_text {
            Some(text) => Self::read_from_repo_from_file(dvcs_hidden, text),
            None => Ok(Self::empty(dvcs_hidden)),
        }
    }
}

} // verus!
