//! Walking a tree without recursion: a list of directories that are still
//! to be read, and the list of those that were read already.
//!
//! The caller reads the directories; the walk decides which one comes
//! next. A directory is handed out once, however often it was scheduled:
//! where links lead back into the tree, a walk that names its directories
//! by their canonical paths still comes to an end.

use vstd::prelude::*;
use vstd::string::StringExecFns;
use crate::staging::{
    is_directory, paths_after_snapshot, reports, snapshot, FileProbe, Staging,
};
use crate::text::{contains_text, lies_in, path_lies_in, texts};

verus! {

/// The position of the directory that is read next: the last of the
/// pending ones that was not read yet, or -1 where there is none.
pub open spec fn next_at(pending: Seq<Seq<char>>, visited: Seq<Seq<char>>) -> int
    decreases pending.len(),
{
    if pending.len() == 0 {
        -1
    } else if !visited.contains(pending.last()) {
        pending.len() - 1
    } else {
        next_at(pending.drop_last(), visited)
    }
}

/// The directories among the entries that are to be read in turn: those
/// that do not lie in the repository's own folder, in the order of the
/// entries.
pub open spec fn found_directories(
    hidden: Seq<char>,
    entries: Seq<(Seq<char>, Option<FileProbe>)>,
) -> Seq<Seq<char>>
    decreases entries.len(),
{
    if entries.len() == 0 {
        Seq::empty()
    } else {
        let earlier = found_directories(hidden, entries.drop_last());
        let (path, probe) = entries.last();
        if !lies_in(hidden, path) && is_directory(probe) {
            earlier.push(path)
        } else {
            earlier
        }
    }
}

#[derive(Debug)]
pub struct TreeWalk {
    pending: Vec<String>,
    visited: Vec<String>,
}

impl TreeWalk {
    /// The directories that are still to be read; the last comes first.
    pub closed spec fn pending(&self) -> Seq<Seq<char>> {
        texts(self.pending@)
    }

    /// The directories that were handed out, in that order.
    pub closed spec fn visited(&self) -> Seq<Seq<char>> {
        texts(self.visited@)
    }

    /// No directory was handed out twice.
    pub open spec fn wf(&self) -> bool {
        self.visited().no_duplicates()
    }

    /// A walk that starts at `root`.
    pub fn start(root: &str) -> (walk: TreeWalk)
        ensures
            walk.wf(),
            walk.pending() == seq![root@],
            walk.visited() == Seq::<Seq<char>>::empty(),
    {
        let mut pending: Vec<String> = Vec::new();
        pending.push(String::from_str(root));
        let walk = TreeWalk { pending, visited: Vec::new() };
        assert(walk.pending() =~= seq![root@]);
        assert(walk.visited() =~= Seq::<Seq<char>>::empty());
        walk
    }

    /// Schedules a directory.
    pub fn schedule(&mut self, directory: &str)
        requires
            old(self).wf(),
        ensures
            final(self).wf(),
            final(self).pending() == old(self).pending().push(directory@),
            final(self).visited() == old(self).visited(),
    {
        self.pending.push(String::from_str(directory));
        assert(self.pending() =~= old(self).pending().push(directory@));
    }

    /// The directory to read next, if one is left. What was scheduled
    /// after it stays pending behind it; what was read before is dropped.
    pub fn next_directory(&mut self) -> (next: Option<String>)
        requires
            old(self).wf(),
        ensures
            final(self).wf(),
            match next {
                Some(directory) => {
                    let at = next_at(old(self).pending(), old(self).visited());
                    &&& 0 <= at < old(self).pending().len()
                    &&& directory@ == old(self).pending()[at]
                    &&& !old(self).visited().contains(directory@)
                    &&& final(self).pending() == old(self).pending().take(at)
                    &&& final(self).visited() == old(self).visited().push(directory@)
                },
                None => {
                    &&& next_at(old(self).pending(), old(self).visited()) == -1
                    &&& final(self).pending() == Seq::<Seq<char>>::empty()
                    &&& final(self).visited() == old(self).visited()
                },
            },
    {
        let ghost goal = next_at(self.pending(), self.visited());
        while self.pending.len() > 0
            invariant
                self.wf(),
                self.visited() == old(self).visited(),
                self.pending() == old(self).pending().take(self.pending.len() as int),
                self.pending.len() <= old(self).pending().len(),
                next_at(self.pending(), self.visited()) == goal,
                goal == next_at(old(self).pending(), old(self).visited()),
            decreases self.pending.len(),
        {
            let ghost before = self.pending();
            let directory = self.pending.pop().unwrap();
            proof {
                assert(self.pending() =~= before.drop_last());
                assert(before.last() == directory@);
                assert(self.pending() =~= old(self).pending().take(self.pending.len() as int));
            }
            if !contains_text(&self.visited, &directory) {
                let ghost seen = self.visited();
                self.visited.push(directory.clone());
                proof {
                    assert(self.visited() =~= seen.push(directory@));
                    assert forall|i: int, j: int|
                        0 <= i < self.visited().len() && 0 <= j < self.visited().len() && i
                            != j implies self.visited()[i] != self.visited()[j] by {
                        if i < seen.len() {
                            assert(seen.contains(seen[i]));
                        }
                        if j < seen.len() {
                            assert(seen.contains(seen[j]));
                        }
                    }
                }
                return Some(directory);
            }
        }
        assert(self.pending() =~= Seq::<Seq<char>>::empty());
        None
    }
}

impl Staging {
    /// Takes what one directory of a tree holds into slot `kind`, and
    /// schedules the directories among it. What lies in the repository's
    /// own folder is neither recorded nor scheduled.
    pub fn recursive_file_traversal(
        &mut self,
        walk: &mut TreeWalk,
        kind: i32,
        listing: &Vec<(String, Option<FileProbe>)>,
    )
        requires
            old(self).wf(),
            old(walk).wf(),
        ensures
            final(self).wf(),
            final(walk).wf(),
            final(self).records() == snapshot(
                old(self).records(),
                old(self).hidden(),
                kind as int,
                reports(listing@),
            ),
            final(self).paths() == paths_after_snapshot(
                old(self).paths(),
                old(self).hidden(),
                reports(listing@),
            ),
            final(self).hidden() == old(self).hidden(),
            final(self).working_root() == old(self).working_root(),
            final(walk).visited() == old(walk).visited(),
            final(walk).pending() == old(walk).pending() + found_directories(
                old(self).hidden(),
                reports(listing@),
            ),
    {
        let ghost hidden = self.hidden();
        let ghost all = reports(listing@);
        let hidden_text = self.hidden_text();
        self.take_snapshot(kind, listing);
        let mut i: usize = 0;
        while i < listing.len()
            invariant
                i <= listing.len(),
                all == reports(listing@),
                hidden_text@ == hidden,
                walk.wf(),
                walk.visited() == old(walk).visited(),
                walk.pending() == old(walk).pending() + found_directories(hidden, all.take(i as int)),
            decreases listing.len() - i,
        {
            proof {
                assert(all.take(i + 1).drop_last() =~= all.take(i as int));
                assert(all.take(i + 1).last() == (listing@[i as int].0@, listing@[i as int].1));
            }
            let is_dir = match &listing[i].1 {
                Some(probe) => !probe.is_file,
                None => false,
            };
            if is_dir && !path_lies_in(listing[i].0.as_str(), hidden_text.as_str()) {
                walk.schedule(listing[i].0.as_str());
            }
            proof {
                assert(walk.pending() =~= old(walk).pending() + found_directories(
                    hidden,
                    all.take(i + 1),
                ));
            }
            i += 1;
        }
        proof {
            assert(all.take(listing.len() as int) =~= all);
        }
    }
}

} // verus!
