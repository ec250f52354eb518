//! In-memory cache of the tracked secret keys, per profile.
use vstd::prelude::*;

use super::opt_view;
use crate::text::{opt_text, str_eq, views};

verus! {

/// The list cached for profile `p`: the first entry for `p` wins.
pub open spec fn cache_lookup(c: Seq<(Option<String>, Vec<String>)>, p: Option<Seq<char>>) -> Option<Seq<Seq<char>>>
    decreases c.len(),
{
    if c.len() == 0 {
        None
    } else if opt_view(c[0].0) == p {
        Some(views(c[0].1@))
    } else {
        cache_lookup(c.drop_first(), p)
    }
}

/// The profile an entry belongs to.
pub open spec fn key_of(e: (Option<String>, Vec<String>)) -> Option<Seq<char>> {
    opt_view(e.0)
}

/// The first entry for `p` is the one that a lookup finds.
proof fn lemma_lookup_at(c: Seq<(Option<String>, Vec<String>)>, p: Option<Seq<char>>, j: int)
    requires
        0 <= j < c.len(),
        key_of(c[j]) == p,
        forall|k: int| 0 <= k < j ==> key_of(#[trigger] c[k]) != p,
    ensures
        cache_lookup(c, p) == Some(views(c[j].1@)),
    decreases j,
{
    if j > 0 {
        assert(key_of(c[0]) != p);
        let d = c.drop_first();
        assert forall|k: int| 0 <= k < j - 1 implies key_of(#[trigger] d[k]) != p by {
            assert(d[k] == c[k + 1]);
        }
        lemma_lookup_at(d, p, j - 1);
    }
}

/// With no entry for `p`, a lookup finds nothing.
proof fn lemma_lookup_absent(c: Seq<(Option<String>, Vec<String>)>, p: Option<Seq<char>>)
    requires
        forall|k: int| 0 <= k < c.len() ==> key_of(#[trigger] c[k]) != p,
    ensures
        cache_lookup(c, p) is None,
    decreases c.len(),
{
    if c.len() > 0 {
        assert(key_of(c[0]) != p);
        let d = c.drop_first();
        assert forall|k: int| 0 <= k < d.len() implies key_of(#[trigger] d[k]) != p by {
            assert(d[k] == c[k + 1]);
        }
        lemma_lookup_absent(d, p);
    }
}

/// Removing an entry of another profile leaves a lookup unchanged.
proof fn lemma_lookup_remove(c: Seq<(Option<String>, Vec<String>)>, j: int, q: Option<Seq<char>>)
    requires
        0 <= j < c.len(),
        key_of(c[j]) != q,
    ensures
        cache_lookup(c.remove(j), q) == cache_lookup(c, q),
    decreases j,
{
    if j == 0 {
        assert(c.remove(0) =~= c.drop_first());
    } else {
        assert(c.remove(j)[0] == c[0]);
        assert(c.remove(j).drop_first() =~= c.drop_first().remove(j - 1));
        lemma_lookup_remove(c.drop_first(), j - 1, q);
    }
}

/// A lookup finds an entry put in front, or else what the rest holds.
proof fn lemma_lookup_front(c: Seq<(Option<String>, Vec<String>)>, x: (Option<String>, Vec<String>), q: Option<Seq<char>>)
    ensures
        cache_lookup(c.insert(0, x), q) == if key_of(x) == q {
            Some(views(x.1@))
        } else {
            cache_lookup(c, q)
        },
{
    assert(c.insert(0, x)[0] == x);
    assert(c.insert(0, x).drop_first() =~= c);
}

fn opt_eq(a: &Option<String>, b: Option<&str>) -> (r: bool)
    ensures
        r == (opt_view(*a) == opt_str(b)),
{
    match (a, b) {
        (Some(x), Some(y)) => str_eq(x.as_str(), y),
        (None, None) => true,
        _ => false,
    }
}

/// A profile name taken as a plain value.
pub open spec fn opt_str(profile: Option<&str>) -> Option<Seq<char>> {
    match profile {
        Some(x) => Some(x@),
        None => None,
    }
}

/// The tracked secret keys loaded so far, by profile (`None` is the global scope).
#[derive(Debug, Clone)]
pub struct TrackedSecretsCache {
    entries: Vec<(Option<String>, Vec<String>)>,
}

impl TrackedSecretsCache {
    /// The cached lists, by profile.
    pub closed spec fn lists(&self) -> Map<Option<Seq<char>>, Seq<Seq<char>>> {
        Map::new(
            |p: Option<Seq<char>>| cache_lookup(self.entries@, p) is Some,
            |p: Option<Seq<char>>| cache_lookup(self.entries@, p)->0,
        )
    }

    /// An empty cache.
    pub fn new() -> (r: Self)
        ensures
            r.lists() == Map::<Option<Seq<char>>, Seq<Seq<char>>>::empty(),
    {
        let r = TrackedSecretsCache { entries: Vec::new() };
        assert(r.lists() =~= Map::<Option<Seq<char>>, Seq<Seq<char>>>::empty());
        r
    }

    /// Where the first entry for a profile stands, if there is one.
    fn position(&self, profile: Option<&str>) -> (r: Option<usize>)
        ensures
            match r {
                Some(j) => j < self.entries@.len() && key_of(self.entries@[j as int]) == opt_str(profile)
                    && forall|k: int| 0 <= k < j ==> key_of(#[trigger] self.entries@[k]) != opt_str(profile),
                None => forall|k: int| 0 <= k < self.entries@.len() ==> key_of(#[trigger] self.entries@[k]) != opt_str(profile),
            },
    {
        let n = self.entries.len();
        let mut i: usize = 0;
        while i < n
            invariant
                n == self.entries@.len(),
                i <= n,
                forall|k: int| 0 <= k < i ==> key_of(#[trigger] self.entries@[k]) != opt_str(profile),
            decreases n - i,
        {
            if opt_eq(&self.entries[i].0, profile) {
                return Some(i);
            }
            i += 1;
        }
        None
    }

    /// The list cached for a profile.
    pub fn get(&self, profile: Option<&str>) -> (r: Option<Vec<String>>)
        ensures
            match r {
                Some(v) => self.lists().get(opt_str(profile)) == Some(views(v@)),
                None => self.lists().get(opt_str(profile)) is None,
            },
    {
        match self.position(profile) {
            Some(j) => {
                proof {
                    lemma_lookup_at(self.entries@, opt_str(profile), j as int);
                }
                let v = self.entries[j].1.clone();
                assert(views(v@) =~= views(self.entries@[j as int].1@));
                Some(v)
            },
            None => {
                proof {
                    lemma_lookup_absent(self.entries@, opt_str(profile));
                }
                None
            },
        }
    }

    /// Cache a list for a profile, replacing what was cached for it.
    pub fn insert(&mut self, profile: Option<&str>, list: Vec<String>)
        ensures
            final(self).lists() == old(self).lists().insert(opt_str(profile), views(list@)),
    {
        let ghost p = opt_str(profile);
        let ghost c0 = self.entries@;
        let found = self.position(profile);
        if let Some(j) = found {
            self.entries.remove(j);
        }
        let ghost c1 = self.entries@;
        let x = (opt_text(profile), list);
        self.entries.insert(0, x);
        proof {
            let m2 = self.lists();
            let m3 = old(self).lists().insert(p, views(x.1@));
            assert forall|q: Option<Seq<char>>| #[trigger] m2.dom().contains(q) == m3.dom().contains(q)
                && (m2.dom().contains(q) ==> m2[q] == m3[q]) by {
                lemma_lookup_front(c1, x, q);
                if q != p {
                    if let Some(j) = found {
                        lemma_lookup_remove(c0, j as int, q);
                    }
                }
            }
            assert(m2 =~= m3);
        }
    }

    /// Drop every cached list.
    pub fn clear(&mut self)
        ensures
            final(self).lists() == Map::<Option<Seq<char>>, Seq<Seq<char>>>::empty(),
    {
        self.entries = Vec::new();
        assert(self.lists() =~= Map::<Option<Seq<char>>, Seq<Seq<char>>>::empty());
    }
}

} // verus!
