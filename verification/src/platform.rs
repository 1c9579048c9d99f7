//! The platform cache: one signature store per platform, built from the
//! platform's defaults on first use and grown by each signature file loaded.

use vstd::prelude::*;
use crate::fingerprint::Fingerprint;
use crate::identity::PlatformIdentity;
use crate::store::SignatureStore;
use crate::table::{
    lemma_table_absent, lemma_table_first, lemma_table_push, lemma_table_replace, offered, table_of,
};

verus! {

#[derive(Clone, Debug)]
struct PlatformEntry {
    id: PlatformIdentity,
    store: SignatureStore,
}

spec fn platform_pairs(entries: Seq<PlatformEntry>) -> Seq<(PlatformIdentity, SignatureStore)> {
    entries.map_values(|entry: PlatformEntry| (entry.id, entry.store))
}

/// The stores built so far, by platform.
#[derive(Clone, Debug)]
pub struct PlatformCache {
    entries: Vec<PlatformEntry>,
}

/// Whether `after` is the cache `before` once `payload` was loaded for
/// platform `p`: the store of `p` is its cached store, or `defaults` where
/// none was cached, merged with `payload`; every other platform is as it was.
pub open spec fn loaded(
    before: Map<PlatformIdentity, SignatureStore>,
    p: PlatformIdentity,
    defaults: SignatureStore,
    payload: SignatureStore,
    after: Map<PlatformIdentity, SignatureStore>,
) -> bool {
    let base = if before.contains_key(p) {
        before[p]
    } else {
        defaults
    };
    &&& after.dom() == before.dom().insert(p)
    &&& base.merged_with(payload, after[p])
    &&& forall|q: PlatformIdentity| q != p && before.contains_key(q) ==> after[q] == before[q]
}

impl PlatformCache {
    /// The cached store of each platform that has one.
    pub closed spec fn stores(self) -> Map<PlatformIdentity, SignatureStore> {
        table_of(platform_pairs(self.entries@))
    }

    /// A cache with no platform built.
    pub fn new() -> (cache: PlatformCache)
        ensures
            cache.stores() == Map::<PlatformIdentity, SignatureStore>::empty(),
    {
        PlatformCache { entries: Vec::new() }
    }

    fn position(&self, p: PlatformIdentity) -> (position: Option<usize>)
        ensures
            match position {
                Some(i) => {
                    &&& i < self.entries.len()
                    &&& self.entries[i as int].id == p
                    &&& forall|j: int| 0 <= j < i ==> self.entries[j].id != p
                    &&& self.stores().contains_key(p)
                    &&& self.stores()[p] == self.entries[i as int].store
                },
                None => !self.stores().contains_key(p),
            },
    {
        let mut i: usize = 0;
        while i < self.entries.len()
            invariant
                i <= self.entries.len(),
                forall|j: int| 0 <= j < i ==> self.entries[j].id != p,
            decreases self.entries.len() - i,
        {
            if self.entries[i].id == p {
                proof {
                    lemma_table_first(platform_pairs(self.entries@), i as int);
                }
                return Some(i);
            }
            i += 1;
        }
        proof {
            lemma_table_absent(platform_pairs(self.entries@), p);
        }
        None
    }

    /// Whether a store is cached for the platform.
    pub fn contains(&self, p: PlatformIdentity) -> (cached: bool)
        ensures
            cached == self.stores().contains_key(p),
    {
        self.position(p).is_some()
    }

    /// The cached store of a platform, if it has one.
    pub fn get(&self, p: PlatformIdentity) -> (found: Option<&SignatureStore>)
        ensures
            match found {
                Some(store) => self.stores().contains_key(p) && *store == self.stores()[p],
                None => !self.stores().contains_key(p),
            },
    {
        match self.position(p) {
            Some(i) => Some(&self.entries[i].store),
            None => None,
        }
    }

    /// Whether no platform has a cached store.
    pub fn is_empty(&self) -> (empty: bool)
        ensures
            empty == (self.stores() == Map::<PlatformIdentity, SignatureStore>::empty()),
    {
        let empty = self.entries.len() == 0;
        proof {
            if !empty {
                lemma_table_first(platform_pairs(self.entries@), 0);
            }
        }
        empty
    }

    /// The store of a platform: the cached one if there is one, else
    /// `defaults`, which is cached first.
    pub fn get_or_build(
        &mut self,
        p: PlatformIdentity,
        defaults: SignatureStore,
    ) -> (store: &SignatureStore)
        ensures
            final(self).stores() == offered(old(self).stores(), p, defaults),
            *store == final(self).stores()[p],
    {
        let i = match self.position(p) {
            Some(i) => i,
            None => {
                let ghost before = platform_pairs(self.entries@);
                let last = self.entries.len();
                self.entries.push(PlatformEntry { id: p, store: defaults });
                proof {
                    assert(platform_pairs(self.entries@) =~= before.push((p, defaults)));
                    lemma_table_push(before, p, defaults);
                }
                last
            },
        };
        &self.entries[i].store
    }

    /// Loads parsed signature data for a platform: merges it into the
    /// platform's cached store, or, where none is cached, into `defaults`,
    /// which then becomes the cached store. Other platforms are untouched.
    /// Returns the merged store.
    pub fn load_and_merge(
        &mut self,
        p: PlatformIdentity,
        defaults: SignatureStore,
        payload: SignatureStore,
    ) -> (store: &SignatureStore)
        ensures
            loaded(old(self).stores(), p, defaults, payload, final(self).stores()),
            *store == final(self).stores()[p],
    {
        let ghost before = platform_pairs(self.entries@);
        let i = match self.position(p) {
            Some(i) => {
                let mut entry = self.entries.remove(i);
                entry.store.extend(payload);
                let ghost merged = entry.store;
                self.entries.insert(i, entry);
                proof {
                    assert(platform_pairs(self.entries@) =~= before.update(i as int, (p, merged)));
                    lemma_table_replace(before, i as int, merged);
                    assert(self.stores().dom() =~= old(self).stores().dom().insert(p));
                }
                i
            },
            None => {
                let mut store = defaults;
                store.extend(payload);
                let last = self.entries.len();
                self.entries.push(PlatformEntry { id: p, store });
                proof {
                    assert(platform_pairs(self.entries@) =~= before.push((p, store)));
                    lemma_table_push(before, p, store);
                    assert(self.stores().dom() =~= old(self).stores().dom().insert(p));
                }
                last
            },
        };
        &self.entries[i].store
    }

    /// Forgets every cached store, so that each platform is built from its
    /// defaults again on next use.
    pub fn invalidate_all(&mut self)
        ensures
            final(self).stores() == Map::<PlatformIdentity, SignatureStore>::empty(),
    {
        self.entries.clear();
    }
}

/// A load for a platform with no cached store yields a store whose function
/// table holds every key of the defaults' table, with at least the
/// candidates it had there.
pub proof fn lemma_load_keeps_defaults(
    before: Map<PlatformIdentity, SignatureStore>,
    p: PlatformIdentity,
    defaults: SignatureStore,
    payload: SignatureStore,
    after: Map<PlatformIdentity, SignatureStore>,
    g: Fingerprint,
)
    requires
        loaded(before, p, defaults, payload, after),
        !before.contains_key(p),
        defaults.functions().contains_key(g),
    ensures
        after.contains_key(p),
        after[p].functions().contains_key(g),
        defaults.functions()[g].subset_of(after[p].functions()[g]),
{
    assert(after.dom().contains(p));
    defaults.lemma_merge_keeps_functions(payload, after[p], g);
}

/// A load for a platform with a cached store keeps every candidate that
/// the cached store held.
pub proof fn lemma_load_keeps_cached(
    before: Map<PlatformIdentity, SignatureStore>,
    p: PlatformIdentity,
    defaults: SignatureStore,
    payload: SignatureStore,
    after: Map<PlatformIdentity, SignatureStore>,
    g: Fingerprint,
)
    requires
        loaded(before, p, defaults, payload, after),
        before.contains_key(p),
        before[p].functions().contains_key(g),
    ensures
        after.contains_key(p),
        after[p].functions().contains_key(g),
        before[p].functions()[g].subset_of(after[p].functions()[g]),
{
    assert(after.dom().contains(p));
    before[p].lemma_merge_keeps_functions(payload, after[p], g);
}

} // verus!
