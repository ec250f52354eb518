//! A map from names to lists of names, such as sub-settings categories to
//! the entries chosen from them.
use vstd::prelude::*;

use crate::text::{str_eq, text, views};

verus! {

/// The list filed under `p`: the first entry for `p` wins.
pub open spec fn lookup_list(c: Seq<(String, Vec<String>)>, p: Seq<char>) -> Option<Seq<Seq<char>>>
    decreases c.len(),
{
    if c.len() == 0 {
        None
    } else if c[0].0@ == p {
        Some(views(c[0].1@))
    } else {
        lookup_list(c.drop_first(), p)
    }
}

/// The name an entry is filed under.
pub open spec fn key_of(e: (String, Vec<String>)) -> Seq<char> {
    e.0@
}

/// The first entry for `p` is the one that a lookup finds.
proof fn lemma_lookup_at(c: Seq<(String, Vec<String>)>, p: Seq<char>, j: int)
    requires
        0 <= j < c.len(),
        key_of(c[j]) == p,
        forall|k: int| 0 <= k < j ==> key_of(#[trigger] c[k]) != p,
    ensures
        lookup_list(c, p) == Some(views(c[j].1@)),
    decreases j,
{
    if j > 0 {
        assert(key_of(c[0]) != p);
        let d = c.drop_first();
        assert forall|k: int| 0 <= k < j - 1 implies key_of(#[trigger] d[k]) != p by {
            assert(d[k] == c[k + 1]);
        }
        lemma_lookup_at(d, p, j - 1);
    }
}

/// With no entry for `p`, a lookup finds nothing.
proof fn lemma_lookup_absent(c: Seq<(String, Vec<String>)>, p: Seq<char>)
    requires
        forall|k: int| 0 <= k < c.len() ==> key_of(#[trigger] c[k]) != p,
    ensures
        lookup_list(c, p) is None,
    decreases c.len(),
{
    if c.len() > 0 {
        assert(key_of(c[0]) != p);
        let d = c.drop_first();
        assert forall|k: int| 0 <= k < d.len() implies key_of(#[trigger] d[k]) != p by {
            assert(d[k] == c[k + 1]);
        }
        lemma_lookup_absent(d, p);
    }
}

/// Removing an entry of another name leaves a lookup unchanged.
proof fn lemma_lookup_remove(c: Seq<(String, Vec<String>)>, j: int, q: Seq<char>)
    requires
        0 <= j < c.len(),
        key_of(c[j]) != q,
    ensures
        lookup_list(c.remove(j), q) == lookup_list(c, q),
    decreases j,
{
    if j == 0 {
        assert(c.remove(0) =~= c.drop_first());
    } else {
        assert(c.remove(j)[0] == c[0]);
        assert(c.remove(j).drop_first() =~= c.drop_first().remove(j - 1));
        lemma_lookup_remove(c.drop_first(), j - 1, q);
    }
}

/// A lookup finds an entry put in front, or else what the rest holds.
proof fn lemma_lookup_front(c: Seq<(String, Vec<String>)>, x: (String, Vec<String>), q: Seq<char>)
    ensures
        lookup_list(c.insert(0, x), q) == if key_of(x) == q {
            Some(views(x.1@))
        } else {
            lookup_list(c, q)
        },
{
    assert(c.insert(0, x)[0] == x);
    assert(c.insert(0, x).drop_first() =~= c);
}

/// Two entry lists with the same names and lists, in the same order, give
/// the same lookups.
proof fn lemma_lookup_same(a: Seq<(String, Vec<String>)>, b: Seq<(String, Vec<String>)>, q: Seq<char>)
    requires
        a.len() == b.len(),
        forall|k: int| 0 <= k < a.len() ==> key_of(#[trigger] a[k]) == key_of(b[k]) && views(a[k].1@) == views(b[k].1@),
    ensures
        lookup_list(a, q) == lookup_list(b, q),
    decreases a.len(),
{
    if a.len() > 0 {
        let a1 = a.drop_first();
        let b1 = b.drop_first();
        assert forall|k: int| 0 <= k < a1.len() implies key_of(#[trigger] a1[k]) == key_of(b1[k]) && views(a1[k].1@) == views(b1[k].1@) by {
            assert(a1[k] == a[k + 1]);
            assert(b1[k] == b[k + 1]);
        }
        assert(key_of(a[0]) == key_of(b[0]));
        lemma_lookup_same(a1, b1, q);
    }
}

/// Lists of names filed under names; each name holds one list.
#[derive(Debug)]
pub struct ListMap {
    entries: Vec<(String, Vec<String>)>,
}

impl ListMap {
    /// No name is filed twice.
    #[verifier::type_invariant]
    spec fn unique_names(&self) -> bool {
        forall|i: int, j: int| 0 <= i < j < self.entries@.len()
            ==> key_of(#[trigger] self.entries@[i]) != key_of(#[trigger] self.entries@[j])
    }

    /// The lists, by name.
    pub closed spec fn lists(&self) -> Map<Seq<char>, Seq<Seq<char>>> {
        Map::new(
            |p: Seq<char>| lookup_list(self.entries@, p) is Some,
            |p: Seq<char>| lookup_list(self.entries@, p)->0,
        )
    }

    /// An empty map.
    pub fn new() -> (r: Self)
        ensures
            r.lists() == Map::<Seq<char>, Seq<Seq<char>>>::empty(),
    {
        let r = ListMap { entries: Vec::new() };
        assert(r.lists() =~= Map::<Seq<char>, Seq<Seq<char>>>::empty());
        r
    }

    /// Where the first entry for a name stands, if there is one.
    fn position(&self, name: &str) -> (r: Option<usize>)
        ensures
            match r {
                Some(j) => j < self.entries@.len() && key_of(self.entries@[j as int]) == name@
                    && forall|k: int| 0 <= k < j ==> key_of(#[trigger] self.entries@[k]) != name@,
                None => forall|k: int| 0 <= k < self.entries@.len() ==> key_of(#[trigger] self.entries@[k]) != name@,
            },
    {
        let n = self.entries.len();
        let mut i: usize = 0;
        while i < n
            invariant
                n == self.entries@.len(),
                i <= n,
                forall|k: int| 0 <= k < i ==> key_of(#[trigger] self.entries@[k]) != name@,
            decreases n - i,
        {
            if str_eq(self.entries[i].0.as_str(), name) {
                return Some(i);
            }
            i += 1;
        }
        None
    }

    /// The list filed under a name.
    pub fn get(&self, name: &str) -> (r: Option<Vec<String>>)
        ensures
            match r {
                Some(v) => self.lists().get(name@) == Some(views(v@)),
                None => self.lists().get(name@) is None,
            },
    {
        match self.position(name) {
            Some(j) => {
                proof {
                    lemma_lookup_at(self.entries@, name@, j as int);
                }
                let v = self.entries[j].1.clone();
                assert(views(v@) =~= views(self.entries@[j as int].1@));
                Some(v)
            },
            None => {
                proof {
                    lemma_lookup_absent(self.entries@, name@);
                }
                None
            },
        }
    }

    /// File a list under a name, replacing what was filed under it.
    pub fn insert(&mut self, name: &str, list: Vec<String>)
        ensures
            final(self).lists() == old(self).lists().insert(name@, views(list@)),
    {
        proof {
            use_type_invariant(&*self);
        }
        let ghost p = name@;
        let ghost c0 = self.entries@;
        let found = self.position(name);
        let mut e: Vec<(String, Vec<String>)> = Vec::new();
        std::mem::swap(&mut e, &mut self.entries);
        assert(e@ == c0);
        if let Some(j) = found {
            e.remove(j);
            proof {
                assert forall|k: int| 0 <= k < e@.len() implies key_of(#[trigger] e@[k]) != p by {
                    if k < j {
                        assert(e@[k] == c0[k]);
                    } else {
                        assert(e@[k] == c0[k + 1]);
                        assert(key_of(c0[j as int]) != key_of(c0[k + 1]));
                    }
                }
            }
        }
        let ghost c1 = e@;
        assert(forall|i: int, j: int| 0 <= i < j < c1.len() ==> key_of(#[trigger] c1[i]) != key_of(#[trigger] c1[j])) by {
            if let Some(j) = found {
                assert forall|a: int, b: int| 0 <= a < b < c1.len() implies key_of(#[trigger] c1[a]) != key_of(#[trigger] c1[b]) by {
                    let a0 = if a < j { a } else { a + 1 };
                    let b0 = if b < j { b } else { b + 1 };
                    assert(c1[a] == c0[a0]);
                    assert(c1[b] == c0[b0]);
                }
            }
        }
        let x = (text(name), list);
        e.insert(0, x);
        proof {
            assert forall|a: int, b: int| 0 <= a < b < e@.len() implies key_of(#[trigger] e@[a]) != key_of(#[trigger] e@[b]) by {
                assert(e@[b] == c1[b - 1]);
                if a > 0 {
                    assert(e@[a] == c1[a - 1]);
                }
            }
        }
        self.entries = e;
        proof {
            let m2 = self.lists();
            let m3 = old(self).lists().insert(p, views(x.1@));
            assert forall|q: Seq<char>| #[trigger] m2.dom().contains(q) == m3.dom().contains(q)
                && (m2.dom().contains(q) ==> m2[q] == m3[q]) by {
                lemma_lookup_front(c1, x, q);
                if q != p {
                    if let Some(j) = found {
                        lemma_lookup_remove(c0, j as int, q);
                    }
                }
            }
            assert(m2 =~= m3);
        }
    }

    /// Whether no list is filed.
    pub fn is_empty(&self) -> (r: bool)
        ensures
            r == (self.lists() == Map::<Seq<char>, Seq<Seq<char>>>::empty()),
    {
        if self.entries.len() == 0 {
            assert(self.lists() =~= Map::<Seq<char>, Seq<Seq<char>>>::empty());
            true
        } else {
            assert(self.lists().dom().contains(key_of(self.entries@[0])));
            false
        }
    }

    /// Every name with its list, each name once.
    pub fn pairs(&self) -> (r: Vec<(String, Vec<String>)>)
        ensures
            forall|i: int, j: int| 0 <= i < j < r@.len() ==> (#[trigger] r@[i]).0@ != (#[trigger] r@[j]).0@,
            forall|i: int| 0 <= i < r@.len() ==> self.lists().get((#[trigger] r@[i]).0@) == Some(views(r@[i].1@)),
            forall|k: Seq<char>| #[trigger] self.lists().contains_key(k) ==> exists|i: int| 0 <= i < r@.len() && (#[trigger] r@[i]).0@ == k,
    {
        proof {
            use_type_invariant(self);
        }
        let ghost c = self.entries@;
        let mut out: Vec<(String, Vec<String>)> = Vec::new();
        let n = self.entries.len();
        let mut i: usize = 0;
        while i < n
            invariant
                n == c.len(),
                c == self.entries@,
                i <= n,
                out@.len() == i,
                forall|k: int| 0 <= k < i ==> (#[trigger] out@[k]).0@ == key_of(c[k]) && views(out@[k].1@) == views(c[k].1@),
            decreases n - i,
        {
            let a = self.entries[i].0.clone();
            let b = self.entries[i].1.clone();
            assert(views(b@) =~= views(c[i as int].1@));
            out.push((a, b));
            i += 1;
        }
        proof {
            assert forall|k: int| 0 <= k < out@.len() implies self.lists().get((#[trigger] out@[k]).0@) == Some(views(out@[k].1@)) by {
                assert forall|m: int| 0 <= m < k implies key_of(#[trigger] c[m]) != key_of(c[k]) by {}
                lemma_lookup_at(c, key_of(c[k]), k);
            }
            assert forall|q: Seq<char>| #[trigger] self.lists().contains_key(q) implies exists|k: int| 0 <= k < out@.len() && (#[trigger] out@[k]).0@ == q by {
                if !(exists|k: int| 0 <= k < out@.len() && (#[trigger] out@[k]).0@ == q) {
                    assert forall|m: int| 0 <= m < c.len() implies key_of(#[trigger] c[m]) != q by {
                        assert(out@[m].0@ == key_of(c[m]));
                    }
                    lemma_lookup_absent(c, q);
                }
            }
        }
        out
    }

    /// Drop every list.
    pub fn clear(&mut self)
        ensures
            final(self).lists() == Map::<Seq<char>, Seq<Seq<char>>>::empty(),
    {
        self.entries = Vec::new();
        assert(self.lists() =~= Map::<Seq<char>, Seq<Seq<char>>>::empty());
    }
}

impl Clone for ListMap {
    fn clone(&self) -> (r: Self)
        ensures
            r.lists() == self.lists(),
    {
        proof {
            use_type_invariant(self);
        }
        let ghost c = self.entries@;
        let mut out: Vec<(String, Vec<String>)> = Vec::new();
        let n = self.entries.len();
        let mut i: usize = 0;
        while i < n
            invariant
                n == c.len(),
                c == self.entries@,
                i <= n,
                out@.len() == i,
                forall|k: int| 0 <= k < i ==> key_of(#[trigger] out@[k]) == key_of(c[k]) && views(out@[k].1@) == views(c[k].1@),
            decreases n - i,
        {
            let a = self.entries[i].0.clone();
            let b = self.entries[i].1.clone();
            assert(views(b@) =~= views(c[i as int].1@));
            out.push((a, b));
            i += 1;
        }
        proof {
            assert forall|a: int, b: int| 0 <= a < b < out@.len() implies key_of(#[trigger] out@[a]) != key_of(#[trigger] out@[b]) by {
                assert(key_of(c[a]) != key_of(c[b]));
            }
        }
        let r = ListMap { entries: out };
        proof {
            assert forall|q: Seq<char>| #[trigger] r.lists().dom().contains(q) == self.lists().dom().contains(q)
                && (r.lists().dom().contains(q) ==> r.lists()[q] == self.lists()[q]) by {
                lemma_lookup_same(out@, c, q);
            }
            assert(r.lists() =~= self.lists());
        }
        r
    }
}

} // verus!
