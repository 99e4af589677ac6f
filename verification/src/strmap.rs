//! A small map from text keys to values that keeps insertion order.
use crate::text::{copy_str, str_eq};
use vstd::prelude::*;

verus! {

/// Index of the first element of `keys` equal to `k` at or after `from`;
/// `keys.len()` when there is none.
pub open spec fn position_from(keys: Seq<Seq<char>>, k: Seq<char>, from: int) -> int
    decreases keys.len() - from,
{
    if from >= keys.len() {
        keys.len() as int
    } else if keys[from] == k {
        from
    } else {
        position_from(keys, k, from + 1)
    }
}

/// Index of the first element of `keys` equal to `k`.
pub open spec fn position(keys: Seq<Seq<char>>, k: Seq<char>) -> Option<int> {
    if position_from(keys, k, 0) < keys.len() {
        Some(position_from(keys, k, 0))
    } else {
        None
    }
}

/// What `position_from` finds is the first place of `k` from `from` on,
/// and it finds none only where there is none.
pub proof fn lemma_position_from(keys: Seq<Seq<char>>, k: Seq<char>, from: int)
    requires
        0 <= from <= keys.len(),
    ensures
        from <= position_from(keys, k, from) <= keys.len(),
        position_from(keys, k, from) < keys.len() ==> keys[position_from(keys, k, from)] == k,
        forall|j: int| from <= j < position_from(keys, k, from) ==> keys[j] != k,
    decreases keys.len() - from,
{
    if from < keys.len() && keys[from] != k {
        lemma_position_from(keys, k, from + 1);
    }
}

/// What `position` says: the index found holds the key, nothing before it
/// does, and `None` means that the key is absent.
pub proof fn lemma_position(keys: Seq<Seq<char>>, k: Seq<char>)
    ensures
        match position(keys, k) {
            Some(i) => 0 <= i < keys.len() && keys[i] == k && forall|j: int|
                0 <= j < i ==> keys[j] != k,
            None => !keys.contains(k),
        },
{
    lemma_position_from(keys, k, 0);
}

/// A key found at `i` in a sequence is its position when nothing before holds it.
pub proof fn lemma_position_is(keys: Seq<Seq<char>>, k: Seq<char>, i: int)
    requires
        0 <= i < keys.len(),
        keys[i] == k,
        forall|j: int| 0 <= j < i ==> keys[j] != k,
    ensures
        position(keys, k) == Some(i),
{
    lemma_position_from(keys, k, 0);
}

/// Position of the first of `keys` that equals `k`.
pub fn find_key(keys: &Vec<String>, k: &str) -> (r: Option<usize>)
    ensures
        match r {
            Some(i) => position(keys.deep_view(), k@) == Some(i as int) && i < keys.len(),
            None => position(keys.deep_view(), k@) is None,
        },
{
    let mut i: usize = 0;
    while i < keys.len()
        invariant
            i <= keys.len(),
            position_from(keys.deep_view(), k@, i as int) == position_from(
                keys.deep_view(),
                k@,
                0,
            ),
        decreases keys.len() - i,
    {
        if str_eq(keys[i].as_str(), k) {
            return Some(i);
        }
        i += 1;
    }
    None
}

/// Text keys with one value each, in the order in which the keys came.
#[derive(Debug)]
pub struct StrMap<V> {
    pub keys: Vec<String>,
    pub vals: Vec<V>,
}

impl<V> StrMap<V> {
    /// Every key has its value and no key stands twice.
    pub open spec fn wf(&self) -> bool {
        &&& self.keys.len() == self.vals.len()
        &&& self.keys.deep_view().no_duplicates()
    }

    /// The keys in insertion order.
    pub open spec fn key_seq(&self) -> Seq<Seq<char>> {
        self.keys.deep_view()
    }

    /// Where `k` stands among the keys.
    pub open spec fn index_of(&self, k: Seq<char>) -> Option<int> {
        position(self.keys.deep_view(), k)
    }

    pub open spec fn has(&self, k: Seq<char>) -> bool {
        self.index_of(k) is Some
    }

    /// The value stored under `k`.
    pub open spec fn value_of(&self, k: Seq<char>) -> Option<V> {
        match self.index_of(k) {
            Some(i) => Some(self.vals@[i]),
            None => None,
        }
    }

    pub fn new() -> (r: Self)
        ensures
            r.wf(),
            r.keys@.len() == 0,
            r.vals@.len() == 0,
    {
        let r = StrMap { keys: Vec::new(), vals: Vec::new() };
        assert(r.keys.deep_view() =~= Seq::empty());
        r
    }

    pub fn len(&self) -> (r: usize)
        ensures
            r == self.keys@.len(),
    {
        self.keys.len()
    }

    /// The index under which `k` is stored.
    pub fn find(&self, k: &str) -> (r: Option<usize>)
        ensures
            match r {
                Some(i) => self.index_of(k@) == Some(i as int) && i < self.keys.len(),
                None => self.index_of(k@) is None,
            },
    {
        find_key(&self.keys, k)
    }

    pub fn contains_key(&self, k: &str) -> (r: bool)
        ensures
            r == self.has(k@),
    {
        self.find(k).is_some()
    }

    /// The value stored under `k`.
    pub fn get(&self, k: &str) -> (r: Option<&V>)
        requires
            self.wf(),
        ensures
            match r {
                Some(v) => self.value_of(k@) == Some(*v),
                None => self.value_of(k@) is None,
            },
    {
        match self.find(k) {
            Some(i) => Some(&self.vals[i]),
            None => None,
        }
    }

    /// Stores `v` under `k`: in place where the key is known, at the end
    /// where it is new. Returns the value that was replaced.
    pub fn insert(&mut self, k: String, v: V) -> (r: Option<V>)
        requires
            old(self).wf(),
        ensures
            final(self).wf(),
            match old(self).index_of(k@) {
                Some(i) => {
                    &&& final(self).keys == old(self).keys
                    &&& final(self).vals@ == old(self).vals@.update(i, v)
                    &&& r == Some(old(self).vals@[i])
                },
                None => {
                    &&& final(self).keys.deep_view() == old(self).keys.deep_view().push(k@)
                    &&& final(self).vals@ == old(self).vals@.push(v)
                    &&& r is None
                },
            },
    {
        proof {
            lemma_position(self.keys.deep_view(), k@);
        }
        match self.find(k.as_str()) {
            Some(i) => {
                let mut v = v;
                let slot = &mut self.vals[i];
                std::mem::swap(slot, &mut v);
                Some(v)
            },
            None => {
                let ghost before = self.keys.deep_view();
                self.keys.push(k);
                self.vals.push(v);
                assert(self.keys.deep_view() =~= before.push(k@));
                None
            },
        }
    }

    /// Takes `k` and its value out, keeping the order of the rest.
    pub fn remove(&mut self, k: &str) -> (r: Option<V>)
        requires
            old(self).wf(),
        ensures
            final(self).wf(),
            match old(self).index_of(k@) {
                Some(i) => {
                    &&& final(self).keys.deep_view() == old(self).keys.deep_view().remove(i)
                    &&& final(self).vals@ == old(self).vals@.remove(i)
                    &&& r == Some(old(self).vals@[i])
                },
                None => {
                    &&& final(self).keys == old(self).keys
                    &&& final(self).vals == old(self).vals
                    &&& r is None
                },
            },
    {
        match self.find(k) {
            Some(i) => {
                let ghost before = self.keys.deep_view();
                self.keys.remove(i);
                let v = self.vals.remove(i);
                assert(self.keys.deep_view() =~= before.remove(i as int));
                Some(v)
            },
            None => None,
        }
    }

    /// A copy of the keys, in insertion order.
    pub fn key_list(&self) -> (r: Vec<String>)
        ensures
            r.deep_view() == self.keys.deep_view(),
    {
        let mut r: Vec<String> = Vec::new();
        let mut i: usize = 0;
        while i < self.keys.len()
            invariant
                i <= self.keys.len(),
                r.deep_view() == self.keys.deep_view().take(i as int),
            decreases self.keys.len() - i,
        {
            let ghost before = r.deep_view();
            r.push(copy_str(self.keys[i].as_str()));
            assert(r.deep_view() =~= before.push(self.keys[i as int]@));
            assert(self.keys.deep_view().take(i + 1) =~= self.keys.deep_view().take(i as int).push(
                self.keys[i as int]@,
            ));
            i += 1;
        }
        assert(self.keys.deep_view().take(self.keys.len() as int) =~= self.keys.deep_view());
        r
    }
}

} // verus!
