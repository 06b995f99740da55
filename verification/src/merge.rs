//! The three-way merge over sets of tokens.
//!
//! A state is a labelled list of tokens (paths or content tokens). The merge
//! compares two descendants, ours and theirs, against their common ancestor.
//! Results keep the order of the list they were selected from, so that equal
//! inputs give equal outputs; as sets they are what the set operations give.

use vstd::prelude::*;
use crate::error::DvcsError;
use crate::text::{contains_text, lemma_filter_next, texts};

verus! {

/// One labelled generation of a tree: where it lives and what it holds.
#[derive(Debug)]
pub struct State {
    pub address: String,
    pub contents: Vec<String>,
}

/// The tokens of `a` that occur in `b`, in the order of `a`.
pub open spec fn kept(a: Seq<Seq<char>>, b: Seq<Seq<char>>) -> Seq<Seq<char>> {
    a.filter(|t: Seq<char>| b.contains(t))
}

/// The tokens of `a` that do not occur in `b`, in the order of `a`.
pub open spec fn missing(a: Seq<Seq<char>>, b: Seq<Seq<char>>) -> Seq<Seq<char>> {
    a.filter(|t: Seq<char>| !b.contains(t))
}

/// What theirs brought in that neither the ancestor nor ours holds.
pub open spec fn additions(
    ancestor: Seq<Seq<char>>,
    ours: Seq<Seq<char>>,
    theirs: Seq<Seq<char>>,
) -> Seq<Seq<char>> {
    missing(missing(theirs, ancestor), missing(ours, ancestor))
}

/// The ancestor's tokens that both sides still hold.
pub open spec fn merge_candidates(
    ancestor: Seq<Seq<char>>,
    ours: Seq<Seq<char>>,
    theirs: Seq<Seq<char>>,
) -> Seq<Seq<char>> {
    kept(kept(ancestor, ours), kept(ancestor, theirs))
}

/// Whether the two sides disagree on what was removed from the ancestor.
pub open spec fn deletion_conflict(
    ancestor: Seq<Seq<char>>,
    ours: Seq<Seq<char>>,
    theirs: Seq<Seq<char>>,
) -> bool {
    missing(ancestor, ours).to_set() != missing(ancestor, theirs).to_set()
}

/// Splits `a` by membership in `b`: first the tokens of `a` that `b` holds,
/// then those it does not.
pub fn find_same_diff(a: &Vec<String>, b: &Vec<String>) -> (r: (Vec<String>, Vec<String>))
    ensures
        texts(r.0@) == kept(texts(a@), texts(b@)),
        texts(r.1@) == missing(texts(a@), texts(b@)),
{
    let mut same: Vec<String> = Vec::new();
    let mut diff: Vec<String> = Vec::new();
    let ghost ta = texts(a@);
    let ghost tb = texts(b@);
    let mut i: usize = 0;
    while i < a.len()
        invariant
            i <= a.len(),
            ta == texts(a@),
            tb == texts(b@),
            texts(same@) == kept(ta.take(i as int), tb),
            texts(diff@) == missing(ta.take(i as int), tb),
        decreases a.len() - i,
    {
        let found = contains_text(b, &a[i]);
        proof {
            lemma_filter_next(ta, i as int, |t: Seq<char>| tb.contains(t));
            lemma_filter_next(ta, i as int, |t: Seq<char>| !tb.contains(t));
        }
        let ghost old_same = texts(same@);
        let ghost old_diff = texts(diff@);
        if found {
            same.push(a[i].clone());
            assert(texts(same@) =~= old_same.push(a@[i as int]@));
        } else {
            diff.push(a[i].clone());
            assert(texts(diff@) =~= old_diff.push(a@[i as int]@));
        }
        i += 1;
    }
    assert(ta.take(a.len() as int) == ta);
    (same, diff)
}

/// The tokens of `b` that `a` does not hold, in the order of `b`.
pub fn find_added(a: &Vec<String>, b: &Vec<String>) -> (added: Vec<String>)
    ensures
        texts(added@) == missing(texts(b@), texts(a@)),
{
    let mut added: Vec<String> = Vec::new();
    let ghost ta = texts(a@);
    let ghost tb = texts(b@);
    let mut i: usize = 0;
    while i < b.len()
        invariant
            i <= b.len(),
            ta == texts(a@),
            tb == texts(b@),
            texts(added@) == missing(tb.take(i as int), ta),
        decreases b.len() - i,
    {
        let found = contains_text(a, &b[i]);
        proof {
            lemma_filter_next(tb, i as int, |t: Seq<char>| !ta.contains(t));
        }
        let ghost old_added = texts(added@);
        if !found {
            added.push(b[i].clone());
            assert(texts(added@) =~= old_added.push(b@[i as int]@));
        }
        i += 1;
    }
    assert(tb.take(b.len() as int) == tb);
    added
}

/// Whether every token of `a` occurs in `b`.
fn all_found(a: &Vec<String>, b: &Vec<String>) -> (all: bool)
    ensures
        all == texts(a@).to_set().subset_of(texts(b@).to_set()),
{
    let ghost ta = texts(a@);
    let ghost tb = texts(b@);
    let mut i: usize = 0;
    while i < a.len()
        invariant
            i <= a.len(),
            ta == texts(a@),
            tb == texts(b@),
            forall|j: int| 0 <= j < i ==> tb.contains(ta[j]),
        decreases a.len() - i,
    {
        if !contains_text(b, &a[i]) {
            proof {
                assert(ta.to_set().contains(ta[i as int]));
                assert(!tb.to_set().contains(ta[i as int]));
            }
            return false;
        }
        i += 1;
    }
    proof {
        assert forall|t: Seq<char>| ta.to_set().contains(t) implies tb.to_set().contains(t) by {
            let j = ta.index_of(t);
            assert(ta[j] == t);
        }
    }
    true
}

/// What a merge gives: the conflict where the two sides removed different
/// tokens of the ancestor; else the additions and the merge candidates.
pub open spec fn merged(
    ancestor: Seq<Seq<char>>,
    ours: Seq<Seq<char>>,
    theirs: Seq<Seq<char>>,
) -> Result<(Seq<Seq<char>>, Seq<Seq<char>>), DvcsError> {
    if deletion_conflict(ancestor, ours, theirs) {
        Err(DvcsError::DeletionConflict)
    } else {
        Ok((additions(ancestor, ours, theirs), merge_candidates(ancestor, ours, theirs)))
    }
}

/// Merges theirs into ours against the common ancestor. Where the two
/// sides removed different tokens of the ancestor, that is reported and
/// nothing is merged: neither side's removals are taken for the right
/// ones. Else the first list holds what is to be added to ours, the second
/// what both sides kept of the ancestor and so may have edited.
pub fn merge_states(ancestor: State, ours: State, theirs: State) -> (r: Result<
    (Vec<String>, Vec<String>),
    DvcsError,
>)
    ensures
        match r {
            Ok(lists) => merged(
                texts(ancestor.contents@),
                texts(ours.contents@),
                texts(theirs.contents@),
            ) == Ok::<(Seq<Seq<char>>, Seq<Seq<char>>), DvcsError>(
                (texts(lists.0@), texts(lists.1@)),
            ),
            Err(e) => merged(
                texts(ancestor.contents@),
                texts(ours.contents@),
                texts(theirs.contents@),
            ) == Err::<(Seq<Seq<char>>, Seq<Seq<char>>), DvcsError>(e),
        },
{
    let (edited_ours, deleted_ours) = find_same_diff(&ancestor.contents, &ours.contents);
    let (edited_theirs, deleted_theirs) = find_same_diff(&ancestor.contents, &theirs.contents);
    let agree = all_found(&deleted_ours, &deleted_theirs) && all_found(
        &deleted_theirs,
        &deleted_ours,
    );
    proof {
        let a = texts(deleted_ours@).to_set();
        let b = texts(deleted_theirs@).to_set();
        if agree {
            assert(a =~= b);
        }
    }
    if !agree {
        return Err(DvcsError::DeletionConflict);
    }
    let added_ours = find_added(&ancestor.contents, &ours.contents);
    let added_theirs = find_added(&ancestor.contents, &theirs.contents);
    let to_be_added = find_added(&added_ours, &added_theirs);
    let (to_be_merged, _) = find_same_diff(&edited_ours, &edited_theirs);
    Ok((to_be_added, to_be_merged))
}

/// Merges the tree at `theirs_path` into the tree at `ours_path` against
/// the tree at `ancestor_path`, each given with what it holds.
pub fn merge_repos(
    ancestor_path: String,
    ours_path: String,
    theirs_path: String,
    ancestor_contents: Vec<String>,
    ours_contents: Vec<String>,
    theirs_contents: Vec<String>,
) -> (r: Result<(Vec<String>, Vec<String>), DvcsError>)
    ensures
        match r {
            Ok(lists) => merged(
                texts(ancestor_contents@),
                texts(ours_contents@),
                texts(theirs_contents@),
            ) == Ok::<(Seq<Seq<char>>, Seq<Seq<char>>), DvcsError>(
                (texts(lists.0@), texts(lists.1@)),
            ),
            Err(e) => merged(
                texts(ancestor_contents@),
                texts(ours_contents@),
                texts(theirs_contents@),
            ) == Err::<(Seq<Seq<char>>, Seq<Seq<char>>), DvcsError>(e),
        },
{
    let ancestor = State { address: ancestor_path, contents: ancestor_contents };
    let ours = State { address: ours_path, contents: ours_contents };
    let theirs = State { address: theirs_path, contents: theirs_contents };
    merge_states(ancestor, ours, theirs)
}

/// A token is selected exactly if it occurs in the list and is wanted.
pub proof fn lemma_filter_contains_iff<A>(s: Seq<A>, p: spec_fn(A) -> bool, x: A)
    ensures
        s.filter(p).contains(x) <==> s.contains(x) && p(x),
{
    if s.filter(p).contains(x) {
        let i = s.filter(p).index_of(x);
        assert(s.filter(p)[i] == x);
        s.lemma_filter_pred(p, i);
        s.lemma_filter_contains_rev(p, x);
    }
    if s.contains(x) && p(x) {
        let i = s.index_of(x);
        assert(s[i] == x);
        s.lemma_filter_contains(p, i);
    }
}

/// As a set, the additions are what theirs holds and neither the ancestor
/// nor ours does.
pub proof fn lemma_additions_as_set(
    ancestor: Seq<Seq<char>>,
    ours: Seq<Seq<char>>,
    theirs: Seq<Seq<char>>,
    token: Seq<char>,
)
    ensures
        additions(ancestor, ours, theirs).contains(token) <==> {
            &&& theirs.contains(token)
            &&& !ancestor.contains(token)
            &&& !ours.contains(token)
        },
{
    let added_ours = missing(ours, ancestor);
    let added_theirs = missing(theirs, ancestor);
    lemma_filter_contains_iff(ours, |t: Seq<char>| !ancestor.contains(t), token);
    lemma_filter_contains_iff(theirs, |t: Seq<char>| !ancestor.contains(t), token);
    lemma_filter_contains_iff(added_theirs, |t: Seq<char>| !added_ours.contains(t), token);
}

/// As a set, the merge candidates are what all three states hold.
pub proof fn lemma_merge_candidates_as_set(
    ancestor: Seq<Seq<char>>,
    ours: Seq<Seq<char>>,
    theirs: Seq<Seq<char>>,
    token: Seq<char>,
)
    ensures
        merge_candidates(ancestor, ours, theirs).contains(token) <==> {
            &&& ancestor.contains(token)
            &&& ours.contains(token)
            &&& theirs.contains(token)
        },
{
    let edited_ours = kept(ancestor, ours);
    let edited_theirs = kept(ancestor, theirs);
    lemma_filter_contains_iff(ancestor, |t: Seq<char>| ours.contains(t), token);
    lemma_filter_contains_iff(ancestor, |t: Seq<char>| theirs.contains(t), token);
    lemma_filter_contains_iff(edited_ours, |t: Seq<char>| edited_theirs.contains(t), token);
}

/// The two sides are in conflict exactly if some token of the ancestor is
/// held by one of them and not by the other.
pub proof fn lemma_deletion_conflict_iff(
    ancestor: Seq<Seq<char>>,
    ours: Seq<Seq<char>>,
    theirs: Seq<Seq<char>>,
)
    ensures
        deletion_conflict(ancestor, ours, theirs) <==> exists|t: Seq<char>|
            ancestor.contains(t) && (ours.contains(t) != theirs.contains(t)),
{
    let a = missing(ancestor, ours);
    let b = missing(ancestor, theirs);
    assert forall|t: Seq<char>| a.to_set().contains(t) <==> ancestor.contains(t) && !ours.contains(t) by {
        lemma_filter_contains_iff(ancestor, |t: Seq<char>| !ours.contains(t), t);
    }
    assert forall|t: Seq<char>| b.to_set().contains(t) <==> ancestor.contains(t) && !theirs.contains(
        t,
    ) by {
        lemma_filter_contains_iff(ancestor, |t: Seq<char>| !theirs.contains(t), t);
    }
    if !(exists|t: Seq<char>| ancestor.contains(t) && (ours.contains(t) != theirs.contains(t))) {
        assert(a.to_set() =~= b.to_set());
    }
    if a.to_set() != b.to_set() {
        assert(!(a.to_set() =~= b.to_set()));
        let t = choose|t: Seq<char>| a.to_set().contains(t) != b.to_set().contains(t);
        assert(ancestor.contains(t) && (ours.contains(t) != theirs.contains(t)));
    }
    if exists|t: Seq<char>| ancestor.contains(t) && (ours.contains(t) != theirs.contains(t)) {
        let t = choose|t: Seq<char>| ancestor.contains(t) && (ours.contains(t) != theirs.contains(t));
        assert(a.to_set().contains(t) != b.to_set().contains(t));
    }
}

} // verus!
