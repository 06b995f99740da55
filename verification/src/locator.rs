//! Finding the repository that encloses a path.
//!
//! The caller lists the directory it starts from and each directory above
//! it, nearest first. The repository's root is the nearest of them that
//! holds a directory of the reserved name. The root of the file system is
//! never searched.

use vstd::prelude::*;
use vstd::string::StringExecFns;

verus! {

/// One entry of a directory: its name, its canonical path, and whether it
/// is a directory itself.
#[derive(Debug)]
pub struct DirEntry {
    pub name: String,
    pub path: String,
    pub is_dir: bool,
}

/// One directory on the way up: its canonical path, whether it is the root
/// of the file system, and what it holds. A path that is no directory
/// holds nothing.
#[derive(Debug)]
pub struct DirListing {
    pub path: String,
    pub is_root: bool,
    pub entries: Vec<DirEntry>,
}

/// Whether the entry is the repository's own folder.
pub open spec fn is_hidden(entry: DirEntry, hidden_name: Seq<char>) -> bool {
    entry.is_dir && entry.name@ == hidden_name
}

/// The position of the first entry that is the repository's own folder,
/// or -1.
pub open spec fn hidden_at(entries: Seq<DirEntry>, hidden_name: Seq<char>) -> int
    decreases entries.len(),
{
    if entries.len() == 0 {
        -1
    } else {
        let earlier = hidden_at(entries.drop_last(), hidden_name);
        if earlier >= 0 {
            earlier
        } else if is_hidden(entries.last(), hidden_name) {
            entries.len() - 1
        } else {
            -1
        }
    }
}

/// The position of the nearest directory below the file system's root that
/// holds the repository's own folder, or -1.
pub open spec fn root_at(levels: Seq<DirListing>, hidden_name: Seq<char>) -> int
    decreases levels.len(),
{
    if levels.len() == 0 {
        -1
    } else {
        let earlier = root_at(levels.drop_last(), hidden_name);
        if earlier >= 0 {
            earlier
        } else if reaches_root(levels.drop_last()) || levels.last().is_root {
            -1
        } else if hidden_at(levels.last().entries@, hidden_name) >= 0 {
            levels.len() - 1
        } else {
            -1
        }
    }
}

/// Whether one of the directories is the root of the file system.
pub open spec fn reaches_root(levels: Seq<DirListing>) -> bool {
    exists|i: int| 0 <= i < levels.len() && levels[i].is_root
}

/// The first entry of a directory that is the repository's own folder.
pub fn find_hidden(entries: &Vec<DirEntry>, hidden_name: &str) -> (at: Option<usize>)
    ensures
        match at {
            Some(i) => {
                &&& i < entries.len()
                &&& hidden_at(entries@, hidden_name@) == i
                &&& is_hidden(entries@[i as int], hidden_name@)
                &&& forall|j: int| 0 <= j < i ==> !is_hidden(entries@[j], hidden_name@)
            },
            None => {
                &&& hidden_at(entries@, hidden_name@) == -1
                &&& forall|j: int| 0 <= j < entries.len() ==> !is_hidden(entries@[j], hidden_name@)
            },
        },
{
    let wanted = String::from_str(hidden_name);
    let mut i: usize = 0;
    while i < entries.len()
        invariant
            i <= entries.len(),
            wanted@ == hidden_name@,
            hidden_at(entries@.take(i as int), hidden_name@) == -1,
            forall|j: int| 0 <= j < i ==> !is_hidden(entries@[j], hidden_name@),
        decreases entries.len() - i,
    {
        proof {
            assert(entries@.take(i + 1).drop_last() =~= entries@.take(i as int));
            assert(entries@.take(i + 1).last() == entries@[i as int]);
        }
        if entries[i].is_dir && entries[i].name == wanted {
            proof {
                lemma_hidden_at_stays(entries@, hidden_name@, i + 1);
            }
            return Some(i);
        }
        i += 1;
    }
    proof {
        assert(entries@.take(entries.len() as int) =~= entries@);
    }
    None
}

/// Once the folder was found among the first entries, more entries do not
/// change where.
pub proof fn lemma_hidden_at_stays(entries: Seq<DirEntry>, hidden_name: Seq<char>, n: int)
    requires
        0 <= n <= entries.len(),
        hidden_at(entries.take(n), hidden_name) >= 0,
    ensures
        hidden_at(entries, hidden_name) == hidden_at(entries.take(n), hidden_name),
    decreases entries.len() - n,
{
    if n < entries.len() {
        assert(entries.take(n + 1).drop_last() =~= entries.take(n));
        lemma_hidden_at_stays(entries, hidden_name, n + 1);
    } else {
        assert(entries.take(n) =~= entries);
    }
}

/// Once the repository's root was found among the nearest directories,
/// more directories above do not change where.
pub proof fn lemma_root_at_stays(levels: Seq<DirListing>, hidden_name: Seq<char>, n: int)
    requires
        0 <= n <= levels.len(),
        root_at(levels.take(n), hidden_name) >= 0,
    ensures
        root_at(levels, hidden_name) == root_at(levels.take(n), hidden_name),
    decreases levels.len() - n,
{
    if n < levels.len() {
        assert(levels.take(n + 1).drop_last() =~= levels.take(n));
        lemma_root_at_stays(levels, hidden_name, n + 1);
    } else {
        assert(levels.take(n) =~= levels);
    }
}

/// Above the root of the file system nothing is found.
pub proof fn lemma_root_at_stops(levels: Seq<DirListing>, hidden_name: Seq<char>, n: int)
    requires
        0 <= n <= levels.len(),
        root_at(levels.take(n), hidden_name) == -1,
        reaches_root(levels.take(n)),
    ensures
        root_at(levels, hidden_name) == -1,
    decreases levels.len() - n,
{
    if n < levels.len() {
        assert(levels.take(n + 1).drop_last() =~= levels.take(n));
        let i = choose|i: int| 0 <= i < levels.take(n).len() && levels.take(n)[i].is_root;
        assert(levels.take(n + 1)[i].is_root);
        lemma_root_at_stops(levels, hidden_name, n + 1);
    } else {
        assert(levels.take(n) =~= levels);
    }
}

/// Where no directory on the way up holds the repository's own folder,
/// no repository is found.
pub proof fn lemma_nothing_found_without_folder(levels: Seq<DirListing>, hidden_name: Seq<char>)
    requires
        forall|i: int| 0 <= i < levels.len() ==> hidden_at(levels[i].entries@, hidden_name) == -1,
    ensures
        root_at(levels, hidden_name) == -1,
    decreases levels.len(),
{
    if levels.len() > 0 {
        assert forall|i: int| 0 <= i < levels.drop_last().len() implies hidden_at(
            levels.drop_last()[i].entries@,
            hidden_name,
        ) == -1 by {
            assert(levels.drop_last()[i] == levels[i]);
        }
        lemma_nothing_found_without_folder(levels.drop_last(), hidden_name);
    }
}

/// A repository that is found is the nearest: no directory nearer to the
/// start holds the repository's own folder, and none up to it is the root
/// of the file system.
pub proof fn lemma_found_is_nearest(levels: Seq<DirListing>, hidden_name: Seq<char>)
    requires
        root_at(levels, hidden_name) >= 0,
    ensures
        root_at(levels, hidden_name) < levels.len(),
        hidden_at(levels[root_at(levels, hidden_name)].entries@, hidden_name) >= 0,
        forall|i: int|
            0 <= i < root_at(levels, hidden_name) ==> hidden_at(levels[i].entries@, hidden_name)
                == -1,
        forall|i: int| 0 <= i <= root_at(levels, hidden_name) ==> !levels[i].is_root,
    decreases levels.len(),
{
    let earlier = root_at(levels.drop_last(), hidden_name);
    if earlier >= 0 {
        lemma_found_is_nearest(levels.drop_last(), hidden_name);
        assert forall|i: int| 0 <= i <= earlier implies levels[i] == levels.drop_last()[i] by {}
    } else {
        let n = levels.len() - 1;
        assert(!reaches_root(levels.drop_last()));
        assert forall|i: int| 0 <= i < n implies !levels[i].is_root && hidden_at(
            levels[i].entries@,
            hidden_name,
        ) == -1 by {
            assert(levels.drop_last()[i] == levels[i]);
            lemma_not_found_means_no_folder(levels.drop_last(), hidden_name, i);
        }
    }
}

/// Where nothing is found although no directory is the root of the file
/// system, no directory holds the repository's own folder.
pub proof fn lemma_not_found_means_no_folder(levels: Seq<DirListing>, hidden_name: Seq<char>, i: int)
    requires
        root_at(levels, hidden_name) == -1,
        !reaches_root(levels),
        0 <= i < levels.len(),
    ensures
        hidden_at(levels[i].entries@, hidden_name) == -1,
    decreases levels.len(),
{
    let shorter = levels.drop_last();
    if reaches_root(shorter) {
        let k = choose|k: int| 0 <= k < shorter.len() && shorter[k].is_root;
        assert(levels[k].is_root);
    }
    assert(!levels.last().is_root) by {
        if levels.last().is_root {
            assert(levels[levels.len() - 1].is_root);
        }
    }
    lemma_hidden_at_bounds(levels.last().entries@, hidden_name);
    if i < levels.len() - 1 {
        lemma_not_found_means_no_folder(shorter, hidden_name, i);
        assert(shorter[i] == levels[i]);
    }
}

/// The folder's position is -1 or a position among the entries.
pub proof fn lemma_hidden_at_bounds(entries: Seq<DirEntry>, hidden_name: Seq<char>)
    ensures
        -1 <= hidden_at(entries, hidden_name) < entries.len(),
    decreases entries.len(),
{
    if entries.len() > 0 {
        lemma_hidden_at_bounds(entries.drop_last(), hidden_name);
    }
}

/// The repository that encloses the path whose way up `levels` describes:
/// the canonical path of the repository's own folder, and that of the
/// directory which holds it. None where no directory below the root of the
/// file system holds such a folder.
pub fn loop_find(levels: &Vec<DirListing>, hidden_name: &str) -> (found: Option<(String, String)>)
    ensures
        match found {
            Some(repository) => {
                let level = root_at(levels@, hidden_name@);
                let at = hidden_at(levels@[level].entries@, hidden_name@);
                &&& 0 <= level < levels.len()
                &&& 0 <= at < levels@[level].entries.len()
                &&& repository.0@ == levels@[level].entries@[at].path@
                &&& repository.1@ == levels@[level].path@
            },
            None => root_at(levels@, hidden_name@) == -1,
        },
{
    let mut i: usize = 0;
    while i < levels.len()
        invariant
            i <= levels.len(),
            root_at(levels@.take(i as int), hidden_name@) == -1,
            !reaches_root(levels@.take(i as int)),
        decreases levels.len() - i,
    {
        proof {
            assert(levels@.take(i + 1).drop_last() =~= levels@.take(i as int));
            assert(levels@.take(i + 1).last() == levels@[i as int]);
        }
        if levels[i].is_root {
            proof {
                assert(levels@.take(i + 1)[i as int].is_root);
                lemma_root_at_stops(levels@, hidden_name@, i + 1);
            }
            return None;
        }
        match find_hidden(&levels[i].entries, hidden_name) {
            Some(at) => {
                proof {
                    lemma_root_at_stays(levels@, hidden_name@, i + 1);
                }
                return Some((levels[i].entries[at].path.clone(), levels[i].path.clone()));
            },
            None => {
                proof {
                    let nearer = levels@.take(i + 1);
                    if reaches_root(nearer) {
                        let k = choose|k: int| 0 <= k < nearer.len() && nearer[k].is_root;
                        if k < i {
                            assert(levels@.take(i as int)[k].is_root);
                        }
                    }
                }
            },
        }
        i += 1;
    }
    proof {
        assert(levels@.take(levels.len() as int) =~= levels@);
    }
    None
}

} // verus!
