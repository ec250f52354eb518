//! A map from strings to strings, kept as a list of pairs with distinct keys.
use vstd::prelude::*;

use crate::text::{str_eq, text, views};

verus! {

/// The keys of a list of pairs.
pub open spec fn pair_keys(s: Seq<(String, String)>) -> Seq<Seq<char>> {
    s.map_values(|p: (String, String)| p.0@)
}

/// A map from strings to strings.
#[derive(Debug)]
pub struct StringMap {
    pairs: Vec<(String, String)>,
}

impl StringMap {
    #[verifier::type_invariant]
    spec fn inv(self) -> bool {
        pair_keys(self.pairs@).no_duplicates()
    }

    spec fn keys_view(&self) -> Seq<Seq<char>> {
        pair_keys(self.pairs@)
    }

    /// The map that a list of pairs stands for.
    pub closed spec fn entries_of(pairs: Seq<(String, String)>) -> Map<Seq<char>, Seq<char>> {
        Map::new(
            |k: Seq<char>| pair_keys(pairs).contains(k),
            |k: Seq<char>| pairs[pair_keys(pairs).index_of(k)].1@,
        )
    }

    /// What the map holds.
    pub closed spec fn entries(&self) -> Map<Seq<char>, Seq<char>> {
        StringMap::entries_of(self.pairs@)
    }

    /// An empty map.
    pub fn new() -> (r: Self)
        ensures
            r.entries() == Map::<Seq<char>, Seq<char>>::empty(),
    {
        let r = StringMap { pairs: Vec::new() };
        assert(r.entries() =~= Map::<Seq<char>, Seq<char>>::empty());
        r
    }

    fn find(&self, key: &str) -> (r: Option<usize>)
        ensures
            match r {
                Some(i) => i < self.pairs@.len() && self.keys_view()[i as int] == key@,
                None => !self.keys_view().contains(key@),
            },
    {
        let n = self.pairs.len();
        let mut i: usize = 0;
        while i < n
            invariant
                n == self.pairs@.len(),
                i <= n,
                forall|j: int| 0 <= j < i ==> self.keys_view()[j] != key@,
            decreases n - i,
        {
            if str_eq(self.pairs[i].0.as_str(), key) {
                return Some(i);
            }
            i += 1;
        }
        None
    }

    proof fn lemma_index_of(s: Seq<Seq<char>>, i: int)
        requires
            s.no_duplicates(),
            0 <= i < s.len(),
        ensures
            s.index_of(s[i]) == i,
    {
        assert(s.contains(s[i]));
        let j = s.index_of(s[i]);
        assert(s[j] == s[i]);
    }
}


impl StringMap {
    /// Set the value of a key.
    pub fn insert(&mut self, key: &str, value: &str)
        ensures
            final(self).entries() == old(self).entries().insert(key@, value@),
    {
        proof { use_type_invariant(&*self); }
        let ghost old_entries = self.entries();
        let found = self.find(key);
        let mut pairs: Vec<(String, String)> = Vec::new();
        std::mem::swap(&mut pairs, &mut self.pairs);
        let ghost old_pairs = pairs@;
        let ghost ks = pair_keys(old_pairs);
        assert(old_entries == StringMap::entries_of(old_pairs));
        match found {
            Some(i) => {
                pairs.set(i, (text(key), text(value)));
                proof {
                    let ks2 = pair_keys(pairs@);
                    assert(ks2 =~= ks);
                    let m2 = StringMap::entries_of(pairs@);
                    let m3 = old_entries.insert(key@, value@);
                    assert forall|k: Seq<char>| #[trigger] m2.dom().contains(k) == m3.dom().contains(k)
                        && (m2.dom().contains(k) ==> m2[k] == m3[k]) by {
                        if ks.contains(k) {
                            let j = choose|j: int| 0 <= j < ks.len() && ks[j] == k;
                            StringMap::lemma_index_of(ks, j);
                        }
                    }
                    assert(m2.dom() =~= m3.dom());
                    assert(m2 =~= m3);
                }
            },
            None => {
                pairs.push((text(key), text(value)));
                proof {
                    let ks2 = pair_keys(pairs@);
                    assert(ks2 =~= ks.push(key@));
                    assert forall|a: int, b: int| 0 <= a < ks2.len() && 0 <= b < ks2.len() && a != b
                        implies ks2[a] != ks2[b] by {
                        if a < ks.len() && b < ks.len() {
                        } else if a == ks.len() {
                            assert(ks[b] != key@);
                        } else {
                            assert(ks[a] != key@);
                        }
                    }
                    let m2 = StringMap::entries_of(pairs@);
                    let m3 = old_entries.insert(key@, value@);
                    assert forall|k: Seq<char>| #[trigger] m2.dom().contains(k) == m3.dom().contains(k)
                        && (m2.dom().contains(k) ==> m2[k] == m3[k]) by {
                        if k == key@ {
                            StringMap::lemma_index_of(ks2, ks.len() as int);
                            assert(ks2[ks.len() as int] == key@);
                            assert(m2.contains_key(k));
                            assert(pairs@[ks.len() as int].1@ == value@);
                        } else if ks.contains(k) {
                            let j = choose|j: int| 0 <= j < ks.len() && ks[j] == k;
                            StringMap::lemma_index_of(ks, j);
                            StringMap::lemma_index_of(ks2, j);
                        } else {
                            assert(!ks2.contains(k)) by {
                                if ks2.contains(k) {
                                    let j = choose|j: int| 0 <= j < ks2.len() && ks2[j] == k;
                                    if j < ks.len() {
                                        assert(ks[j] == k);
                                    }
                                }
                            }
                        }
                    }
                    assert(m2.dom() =~= m3.dom());
                    assert(m2 =~= m3);
                }
            },
        }
        self.pairs = pairs;
    }

    /// The value of a key, if it has one.
    pub fn get(&self, key: &str) -> (r: Option<String>)
        ensures
            match r {
                Some(v) => self.entries().get(key@) == Some(v@),
                None => !self.entries().contains_key(key@),
            },
    {
        proof { use_type_invariant(self); }
        match self.find(key) {
            Some(i) => {
                proof { StringMap::lemma_index_of(self.keys_view(), i as int); }
                Some(self.pairs[i].1.clone())
            },
            None => None,
        }
    }

    /// Remove a key and its value; an absent key is no error.
    pub fn remove(&mut self, key: &str)
        ensures
            final(self).entries() == old(self).entries().remove(key@),
    {
        proof { use_type_invariant(&*self); }
        let ghost old_entries = self.entries();
        let found = self.find(key);
        match found {
            Some(i) => {
                let mut pairs: Vec<(String, String)> = Vec::new();
                std::mem::swap(&mut pairs, &mut self.pairs);
                let ghost old_pairs = pairs@;
                let ghost ks = pair_keys(old_pairs);
                assert(old_entries == StringMap::entries_of(old_pairs));
                pairs.remove(i);
                proof {
                    let ks2 = pair_keys(pairs@);
                    assert(ks2 =~= ks.remove(i as int));
                    assert forall|a: int, b: int| 0 <= a < ks2.len() && 0 <= b < ks2.len() && a != b
                        implies ks2[a] != ks2[b] by {
                        let a2 = if a < i { a } else { a + 1 };
                        let b2 = if b < i { b } else { b + 1 };
                        assert(ks[a2] != ks[b2]);
                    }
                    let m2 = StringMap::entries_of(pairs@);
                    let m3 = old_entries.remove(key@);
                    assert forall|k: Seq<char>| #[trigger] m2.dom().contains(k) == m3.dom().contains(k)
                        && (m2.dom().contains(k) ==> m2[k] == m3[k]) by {
                        if ks2.contains(k) {
                            let j = choose|j: int| 0 <= j < ks2.len() && ks2[j] == k;
                            let j2 = if j < i { j } else { j + 1 };
                            assert(ks[j2] == k);
                            assert(j2 != i);
                            StringMap::lemma_index_of(ks2, j);
                            StringMap::lemma_index_of(ks, j2);
                        } else if ks.contains(k) && k != key@ {
                            let j = choose|j: int| 0 <= j < ks.len() && ks[j] == k;
                            assert(j != i);
                            let j2 = if j < i { j } else { j - 1 };
                            assert(ks2[j2] == k);
                        }
                    }
                    assert(m2.dom() =~= m3.dom());
                    assert(m2 =~= m3);
                }
                self.pairs = pairs;
            },
            None => {
                assert(old_entries.remove(key@) =~= old_entries);
            },
        }
    }

    /// The keys, each once.
    pub fn keys(&self) -> (r: Vec<String>)
        ensures
            views(r@).to_set() == self.entries().dom(),
            views(r@).no_duplicates(),
    {
        proof { use_type_invariant(self); }
        let n = self.pairs.len();
        let mut out: Vec<String> = Vec::new();
        let mut i: usize = 0;
        while i < n
            invariant
                n == self.pairs@.len(),
                i <= n,
                views(out@) == self.keys_view().subrange(0, i as int),
            decreases n - i,
        {
            let ghost prev = out@;
            let k = self.pairs[i].0.clone();
            out.push(k);
            proof {
                assert(self.keys_view()[i as int] == self.pairs@[i as int].0@);
                assert(views(prev) == self.keys_view().subrange(0, i as int));
                assert(views(prev).len() == prev.len());
                assert(prev.len() == i);
                assert(out@ == prev.push(k));
                assert forall|j: int| 0 <= j < i + 1 implies #[trigger] views(out@)[j]
                    == self.keys_view().subrange(0, i + 1)[j] by {
                    if j < i {
                        assert(out@[j] == prev[j]);
                        assert(views(prev)[j] == self.keys_view().subrange(0, i as int)[j]);
                    }
                }
                assert(views(out@) =~= self.keys_view().subrange(0, i + 1));
            }
            i += 1;
        }
        proof {
            assert(self.keys_view().subrange(0, n as int) =~= self.keys_view());
            assert(views(out@).to_set() =~= self.entries().dom());
        }
        out
    }

    /// Whether the map holds nothing.
    pub fn is_empty(&self) -> (r: bool)
        ensures
            r == (self.entries() == Map::<Seq<char>, Seq<char>>::empty()),
    {
        if self.pairs.len() == 0 {
            assert(self.entries() =~= Map::<Seq<char>, Seq<char>>::empty());
            true
        } else {
            assert(self.keys_view().contains(self.keys_view()[0]));
            assert(self.entries().dom().contains(self.keys_view()[0]));
            false
        }
    }
}

} // verus!
