//! A map keyed by text that remembers the order in which its keys arrived.
//!
//! The keys and the values are two lists of one length, and no key occurs
//! twice. As a mathematical map the structure sends each key to the value at
//! the key's position.

use vstd::prelude::*;
use vstd::string::StringExecFns;
use crate::text::texts;

verus! {

#[derive(Debug, Clone)]
pub struct TextMap<V> {
    keys: Vec<String>,
    values: Vec<V>,
}

/// In a list without repetition an element is found where it stands.
pub proof fn lemma_index_of_unique<A>(s: Seq<A>, i: int)
    requires
        s.no_duplicates(),
        0 <= i < s.len(),
    ensures
        s.index_of(s[i]) == i,
{
    let j = s.index_of(s[i]);
    assert(0 <= j < s.len() && s[j] == s[i]);
}

impl<V> TextMap<V> {
    /// The keys, in the order of their first insertion.
    pub closed spec fn keys(&self) -> Seq<Seq<char>> {
        texts(self.keys@)
    }

    /// The values, each at the position of its key.
    pub closed spec fn values(&self) -> Seq<V> {
        self.values@
    }

    /// Every key has one value, and no key occurs twice.
    pub open spec fn wf(&self) -> bool {
        &&& self.keys().len() == self.values().len()
        &&& self.keys().no_duplicates()
    }

    /// The map from each key to its value.
    pub open spec fn view(&self) -> Map<Seq<char>, V> {
        Map::new(
            |k: Seq<char>| self.keys().contains(k),
            |k: Seq<char>| self.values()[self.keys().index_of(k)],
        )
    }

    /// The map sends the key at a position to the value at that position.
    pub proof fn lemma_view_at(&self, i: int)
        requires
            self.wf(),
            0 <= i < self.keys().len(),
        ensures
            self@.dom().contains(self.keys()[i]),
            self@[self.keys()[i]] == self.values()[i],
    {
        lemma_index_of_unique(self.keys(), i);
    }

    pub fn new() -> (m: Self)
        ensures
            m.wf(),
            m.keys() == Seq::<Seq<char>>::empty(),
            m.values() == Seq::<V>::empty(),
            m@ == Map::<Seq<char>, V>::empty(),
    {
        let m = TextMap { keys: Vec::new(), values: Vec::new() };
        assert(m.keys() =~= Seq::<Seq<char>>::empty());
        assert(m@ =~= Map::<Seq<char>, V>::empty());
        m
    }

    pub fn len(&self) -> (n: usize)
        requires
            self.wf(),
        ensures
            n == self.keys().len(),
    {
        self.keys.len()
    }

    /// Whether the map holds nothing.
    pub fn is_empty(&self) -> (empty: bool)
        requires
            self.wf(),
        ensures
            empty == (self.keys().len() == 0),
            empty == (self@ == Map::<Seq<char>, V>::empty()),
    {
        proof {
            if self.keys().len() == 0 {
                assert(self@ =~= Map::<Seq<char>, V>::empty());
            } else {
                self.lemma_view_at(0);
            }
        }
        self.keys.len() == 0
    }

    /// The position of `key`, if the map holds it.
    pub fn find(&self, key: &str) -> (at: Option<usize>)
        requires
            self.wf(),
        ensures
            match at {
                Some(i) => i < self.keys().len() && self.keys()[i as int] == key@,
                None => !self.keys().contains(key@),
            },
            at.is_some() == self@.dom().contains(key@),
    {
        let wanted = String::from_str(key);
        let mut i: usize = 0;
        while i < self.keys.len()
            invariant
                i <= self.keys.len(),
                wanted@ == key@,
                forall|j: int| 0 <= j < i ==> self.keys()[j] != key@,
            decreases self.keys.len() - i,
        {
            if self.keys[i] == wanted {
                return Some(i);
            }
            i += 1;
        }
        None
    }

    pub fn key_at(&self, i: usize) -> (key: &String)
        requires
            self.wf(),
            i < self.keys().len(),
        ensures
            key@ == self.keys()[i as int],
    {
        &self.keys[i]
    }

    pub fn value_at(&self, i: usize) -> (value: &V)
        requires
            self.wf(),
            i < self.keys().len(),
        ensures
            *value == self.values()[i as int],
            *value == self@[self.keys()[i as int]],
    {
        proof {
            self.lemma_view_at(i as int);
        }
        &self.values[i]
    }

    /// The value of `key`, if the map holds it.
    pub fn get(&self, key: &str) -> (value: Option<&V>)
        requires
            self.wf(),
        ensures
            match value {
                Some(v) => self@.dom().contains(key@) && *v == self@[key@],
                None => !self@.dom().contains(key@),
            },
    {
        match self.find(key) {
            Some(i) => Some(self.value_at(i)),
            None => None,
        }
    }

    /// Replaces the value at a position; the keys stay as they are.
    pub fn set_value(&mut self, i: usize, value: V)
        requires
            old(self).wf(),
            i < old(self).keys().len(),
        ensures
            final(self).wf(),
            final(self).keys() == old(self).keys(),
            final(self).values() == old(self).values().update(i as int, value),
            final(self)@ == old(self)@.insert(old(self).keys()[i as int], value),
    {
        self.values.set(i, value);
        proof {
            let before = *old(self);
            let after = *self;
            let k = before.keys()[i as int];
            lemma_index_of_unique(before.keys(), i as int);
            assert forall|q: Seq<char>| before.keys().contains(q) && q != k implies before.keys().index_of(q) != i by {
                let j = before.keys().index_of(q);
                assert(before.keys()[j] == q);
            }
            assert(after@ =~= before@.insert(k, value));
        }
    }

    /// Sets the value of `key`: in place where the map holds the key, at the
    /// end where it does not.
    pub fn insert(&mut self, key: String, value: V)
        requires
            old(self).wf(),
        ensures
            final(self).wf(),
            final(self)@ == old(self)@.insert(key@, value),
            old(self).keys().contains(key@) ==> {
                &&& final(self).keys() == old(self).keys()
                &&& final(self).values() == old(self).values().update(
                    old(self).keys().index_of(key@),
                    value,
                )
            },
            !old(self).keys().contains(key@) ==> {
                &&& final(self).keys() == old(self).keys().push(key@)
                &&& final(self).values() == old(self).values().push(value)
            },
    {
        match self.find(key.as_str()) {
            Some(i) => {
                proof {
                    lemma_index_of_unique(self.keys(), i as int);
                }
                self.set_value(i, value);
            },
            None => {
                self.keys.push(key);
                self.values.push(value);
                proof {
                    let before = *old(self);
                    let after = *self;
                    assert(after.keys() =~= before.keys().push(key@));
                    assert forall|q: Seq<char>| before.keys().contains(q) implies after.keys().index_of(q)
                        == before.keys().index_of(q) by {
                        let j = before.keys().index_of(q);
                        assert(after.keys()[j] == q);
                        lemma_index_of_unique(after.keys(), j);
                    }
                    let n = before.keys().len() as int;
                    assert(after.keys()[n] == key@);
                    lemma_index_of_unique(after.keys(), n);
                    assert(after.values() == before.values().push(value));
                    assert forall|q: Seq<char>| after.keys().contains(q) implies before.keys().contains(q)
                        || q == key@ by {
                        let j = after.keys().index_of(q);
                        assert(after.keys()[j] == q);
                        if j < n {
                            assert(before.keys()[j] == q);
                        }
                    }
                    assert forall|q: Seq<char>| before.keys().contains(q) implies after.keys().contains(q) by {
                        let j = before.keys().index_of(q);
                        assert(after.keys()[j] == q);
                    }
                    assert(after@.dom() =~= before@.insert(key@, value).dom());
                    assert forall|q: Seq<char>| after@.dom().contains(q) implies after@[q]
                        == before@.insert(key@, value)[q] by {
                        if q != key@ {
                            let j = before.keys().index_of(q);
                            assert(before.keys()[j] == q);
                        }
                    }
                    assert(after@ =~= before@.insert(key@, value));
                }
            },
        }
    }
}

} // verus!
