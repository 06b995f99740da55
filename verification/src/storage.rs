//! The repository's view of a tree: each path with its content, and the
//! forward difference between the current tree and an earlier snapshot.

use vstd::prelude::*;
use crate::text::lemma_filter_next;
use crate::textmap::TextMap;

verus! {

/// A tree as a mathematical map from each path to its content.
pub open spec fn tree(m: Map<Seq<char>, String>) -> Map<Seq<char>, Seq<char>> {
    m.map_values(|s: String| s@)
}

/// The paths of `current` whose content differs from that in `prior`, or
/// that `prior` does not hold, each with its content in `current`. A path
/// that only `prior` holds is not part of the difference.
pub open spec fn forward_diff(
    current: Map<Seq<char>, Seq<char>>,
    prior: Map<Seq<char>, Seq<char>>,
) -> Map<Seq<char>, Seq<char>> {
    Map::new(
        |k: Seq<char>| current.dom().contains(k) && (!prior.dom().contains(k) || prior[k] != current[k]),
        |k: Seq<char>| current[k],
    )
}

/// Whether a path of `current` belongs to the difference from `prior`.
pub open spec fn differs(
    current: Map<Seq<char>, Seq<char>>,
    prior: Map<Seq<char>, Seq<char>>,
    path: Seq<char>,
) -> bool {
    !prior.dom().contains(path) || prior[path] != current[path]
}

/// The difference between a tree and itself is empty.
pub proof fn lemma_diff_of_equal_trees_is_empty(current: Map<Seq<char>, Seq<char>>)
    ensures
        forward_diff(current, current) == Map::<Seq<char>, Seq<char>>::empty(),
{
    assert(forward_diff(current, current) =~= Map::<Seq<char>, Seq<char>>::empty());
}

/// The difference holds no path that the current tree lacks.
pub proof fn lemma_diff_ignores_deleted_paths(
    current: Map<Seq<char>, Seq<char>>,
    prior: Map<Seq<char>, Seq<char>>,
    path: Seq<char>,
)
    requires
        !current.dom().contains(path),
    ensures
        !forward_diff(current, prior).dom().contains(path),
{
}

/// A copy of a tree, with the paths in the same order.
pub fn clone_tree(m: &TextMap<String>) -> (copy: TextMap<String>)
    requires
        m.wf(),
    ensures
        copy.wf(),
        copy.keys() == m.keys(),
        tree(copy@) == tree(m@),
{
    let mut copy: TextMap<String> = TextMap::new();
    let mut i: usize = 0;
    while i < m.len()
        invariant
            m.wf(),
            copy.wf(),
            i <= m.keys().len(),
            copy.keys() == m.keys().take(i as int),
            forall|j: int| 0 <= j < i ==> copy.values()[j]@ == m.values()[j]@,
        decreases m.keys().len() - i,
    {
        proof {
            let k = m.keys()[i as int];
            if m.keys().take(i as int).contains(k) {
                let j = m.keys().take(i as int).index_of(k);
                assert(m.keys()[j] == k);
            }
            assert(m.keys().take(i + 1) =~= m.keys().take(i as int).push(k));
        }
        copy.insert(m.key_at(i).clone(), m.value_at(i).clone());
        i += 1;
    }
    proof {
        assert(m.keys().take(m.keys().len() as int) =~= m.keys());
        assert forall|k: Seq<char>| m@.dom().contains(k) implies copy@[k]@ == m@[k]@ by {
            let j = m.keys().index_of(k);
            assert(m.keys()[j] == k);
        }
        assert(tree(copy@) =~= tree(m@));
    }
    copy
}

#[derive(Debug)]
pub struct RepositoryStorage {
    structure: TextMap<String>,
}

impl RepositoryStorage {
    /// Nothing is missing from the structure and no path occurs twice.
    pub closed spec fn wf(&self) -> bool {
        self.structure.wf()
    }

    /// The current tree.
    pub closed spec fn view(&self) -> Map<Seq<char>, Seq<char>> {
        tree(self.structure@)
    }

    /// The paths of the current tree, in the order in which it holds them.
    pub closed spec fn paths(&self) -> Seq<Seq<char>> {
        self.structure.keys()
    }

    /// A storage that holds no path.
    pub fn new() -> (storage: RepositoryStorage)
        ensures
            storage.wf(),
            storage@ == Map::<Seq<char>, Seq<char>>::empty(),
            storage.paths() == Seq::<Seq<char>>::empty(),
    {
        let storage = RepositoryStorage { structure: TextMap::new() };
        assert(storage@ =~= Map::<Seq<char>, Seq<char>>::empty());
        storage
    }

    /// What changed in the current tree since `snapshot` was taken.
    pub fn see_diff(&self, snapshot: &TextMap<String>) -> (diff: TextMap<String>)
        requires
            self.wf(),
            snapshot.wf(),
        ensures
            diff.wf(),
            tree(diff@) == forward_diff(self@, tree(snapshot@)),
            diff.keys() == self.paths().filter(
                |path: Seq<char>| differs(self@, tree(snapshot@), path),
            ),
    {
        let mut diff: TextMap<String> = TextMap::new();
        let ghost current = self.structure;
        let mut i: usize = 0;
        while i < self.structure.len()
            invariant
                current == self.structure,
                current.wf(),
                snapshot.wf(),
                diff.wf(),
                i <= current.keys().len(),
                diff.keys() == current.keys().take(i as int).filter(
                    |path: Seq<char>| differs(tree(current@), tree(snapshot@), path),
                ),
                forall|k: Seq<char>| #[trigger]
                    diff@.dom().contains(k) <==> {
                        &&& current.keys().take(i as int).contains(k)
                        &&& (!snapshot@.dom().contains(k) || snapshot@[k]@ != current@[k]@)
                    },
                forall|k: Seq<char>| #[trigger] diff@.dom().contains(k) ==> diff@[k]@ == current@[k]@,
            decreases current.keys().len() - i,
        {
            let path = self.structure.key_at(i);
            let content = self.structure.value_at(i);
            let changed = match snapshot.get(path.as_str()) {
                Some(before) => !(*before == *content),
                None => true,
            };
            proof {
                let k = current.keys()[i as int];
                assert(current.keys().take(i + 1) =~= current.keys().take(i as int).push(k));
                current.lemma_view_at(i as int);
                assert forall|q: Seq<char>| current.keys().take(i + 1).contains(q) <==> (
                current.keys().take(i as int).contains(q) || q == k) by {
                    if current.keys().take(i as int).contains(q) {
                        let j = current.keys().take(i as int).index_of(q);
                        assert(current.keys().take(i + 1)[j] == q);
                    }
                    if q == k {
                        assert(current.keys().take(i + 1)[i as int] == q);
                    }
                    if current.keys().take(i + 1).contains(q) {
                        let j = current.keys().take(i + 1).index_of(q);
                        if j < i {
                            assert(current.keys().take(i as int)[j] == q);
                        }
                    }
                }
            }
            let ghost earlier = diff;
            proof {
                let k = current.keys()[i as int];
                lemma_filter_next(
                    current.keys(),
                    i as int,
                    |path: Seq<char>| differs(tree(current@), tree(snapshot@), path),
                );
                assert(changed == differs(tree(current@), tree(snapshot@), k));
                if current.keys().take(i as int).contains(k) {
                    let j = current.keys().take(i as int).index_of(k);
                    assert(current.keys()[j] == current.keys()[i as int] && j != i);
                }
                assert(!current.keys().take(i as int).contains(k));
                assert(earlier@.dom().contains(k) == earlier.keys().contains(k));
                assert(!earlier.keys().contains(k));
            }
            if changed {
                diff.insert(path.clone(), content.clone());
            }
            proof {
                let k = current.keys()[i as int];
                assert forall|q: Seq<char>| #[trigger]
                    diff@.dom().contains(q) <==> {
                        &&& current.keys().take(i + 1).contains(q)
                        &&& (!snapshot@.dom().contains(q) || snapshot@[q]@ != current@[q]@)
                    } by {
                    assert(earlier@.dom().contains(q) <==> {
                        &&& current.keys().take(i as int).contains(q)
                        &&& (!snapshot@.dom().contains(q) || snapshot@[q]@ != current@[q]@)
                    });
                    assert(current.keys().take(i + 1).contains(q) <==> (current.keys().take(
                        i as int,
                    ).contains(q) || q == k));
                }
                assert forall|q: Seq<char>| #[trigger] diff@.dom().contains(q) implies diff@[q]@
                    == current@[q]@ by {
                    if q != k || !changed {
                        assert(earlier@.dom().contains(q));
                    }
                }
            }
            i += 1;
        }
        proof {
            assert(current.keys().take(current.keys().len() as int) =~= current.keys());
            assert(tree(diff@) =~= forward_diff(self@, tree(snapshot@)));
        }
        diff
    }

    /// A copy of the current tree.
    pub fn get_repo_structure(&self) -> (structure: TextMap<String>)
        requires
            self.wf(),
        ensures
            structure.wf(),
            tree(structure@) == self@,
            structure.keys() == self.paths(),
    {
        clone_tree(&self.structure)
    }

    /// Makes `snapshot` the current tree.
    pub fn set_repo_snapshot(&mut self, snapshot: TextMap<String>)
        requires
            snapshot.wf(),
        ensures
            final(self).wf(),
            final(self)@ == tree(snapshot@),
            final(self).paths() == snapshot.keys(),
    {
        self.structure = snapshot;
    }
}

} // verus!
