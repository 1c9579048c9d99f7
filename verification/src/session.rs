//! Per-session caches: what was computed for each function of each open
//! analysis session, and the purge that session teardown triggers.

use vstd::prelude::*;
use crate::fingerprint::{
    compute_fingerprint, fingerprint_of, Fingerprint, UnavailableRepresentation,
};
use crate::identity::{FunctionIdentity, SessionIdentity};
use crate::record::{RecordView, SignatureRecord};
use crate::store::{Outcome, OutcomeView, SignatureStore};
use crate::table::{
    lemma_table_absent, lemma_table_first, lemma_table_push, lemma_table_remove,
    lemma_table_replace, table_of,
};

verus! {

/// The key of a cached value: a function inside a session.
pub type CacheKey = (SessionIdentity, FunctionIdentity);

/// The table `entries` without the entries of session `s`.
pub open spec fn without_session<V>(entries: Map<CacheKey, V>, s: SessionIdentity) -> Map<
    CacheKey,
    V,
> {
    entries.restrict(Set::new(|key: CacheKey| key.0 != s))
}

/// The functions of session `s` that have an entry in the table.
pub open spec fn session_functions<V>(entries: Map<CacheKey, V>, s: SessionIdentity) -> Set<
    FunctionIdentity,
> {
    Set::new(|f: FunctionIdentity| entries.contains_key((s, f)))
}

/// Whether a list of function identities holds the given one.
fn function_listed(list: &Vec<FunctionIdentity>, f: FunctionIdentity) -> (found: bool)
    ensures
        found == list@.to_set().contains(f),
{
    let mut i: usize = 0;
    while i < list.len()
        invariant
            i <= list.len(),
            forall|j: int| 0 <= j < i ==> list@[j] != f,
        decreases list.len() - i,
    {
        if list[i] == f {
            return true;
        }
        i += 1;
    }
    false
}

#[derive(Clone, Debug)]
struct CacheEntry<V> {
    session: SessionIdentity,
    function: FunctionIdentity,
    value: V,
}

spec fn cache_pairs<V>(entries: Seq<CacheEntry<V>>) -> Seq<(CacheKey, V)> {
    entries.map_values(|entry: CacheEntry<V>| ((entry.session, entry.function), entry.value))
}

/// One memoisation table, keyed by session and function.
#[derive(Clone, Debug)]
pub struct SessionCache<V> {
    entries: Vec<CacheEntry<V>>,
}

impl<V> SessionCache<V> {
    /// The cached value of each function that has one.
    pub closed spec fn entries(self) -> Map<CacheKey, V> {
        table_of(cache_pairs(self.entries@))
    }

    /// An empty cache.
    pub fn new() -> (cache: SessionCache<V>)
        ensures
            cache.entries() == Map::<CacheKey, V>::empty(),
    {
        SessionCache { entries: Vec::new() }
    }

    fn position(&self, s: SessionIdentity, f: FunctionIdentity) -> (position: Option<usize>)
        ensures
            match position {
                Some(i) => {
                    &&& i < self.entries.len()
                    &&& self.entries[i as int].session == s
                    &&& self.entries[i as int].function == f
                    &&& forall|j: int|
                        0 <= j < i ==> (self.entries[j].session, self.entries[j].function) != (
                            s,
                            f,
                        )
                    &&& self.entries().contains_key((s, f))
                    &&& self.entries()[(s, f)] == self.entries[i as int].value
                },
                None => !self.entries().contains_key((s, f)),
            },
    {
        let mut i: usize = 0;
        while i < self.entries.len()
            invariant
                i <= self.entries.len(),
                forall|j: int|
                    0 <= j < i ==> (self.entries[j].session, self.entries[j].function) != (s, f),
            decreases self.entries.len() - i,
        {
            if self.entries[i].session == s && self.entries[i].function == f {
                proof {
                    lemma_table_first(cache_pairs(self.entries@), i as int);
                }
                return Some(i);
            }
            i += 1;
        }
        proof {
            lemma_table_absent(cache_pairs(self.entries@), (s, f));
        }
        None
    }

    /// The value cached for a function of a session, if there is one.
    pub fn get(&self, s: SessionIdentity, f: FunctionIdentity) -> (found: Option<&V>)
        ensures
            match found {
                Some(value) => self.entries().contains_key((s, f)) && *value == self.entries()[(
                    s,
                    f,
                )],
                None => !self.entries().contains_key((s, f)),
            },
    {
        match self.position(s, f) {
            Some(i) => Some(&self.entries[i].value),
            None => None,
        }
    }

    /// Caches a value for a function of a session, in place of the value
    /// cached for it before, if there was one.
    pub fn insert(&mut self, s: SessionIdentity, f: FunctionIdentity, value: V)
        ensures
            final(self).entries() == old(self).entries().insert((s, f), value),
    {
        let ghost before = cache_pairs(self.entries@);
        match self.position(s, f) {
            Some(i) => {
                self.entries.remove(i);
                self.entries.insert(i, CacheEntry { session: s, function: f, value });
                proof {
                    assert(cache_pairs(self.entries@) =~= before.update(i as int, ((s, f), value)));
                    lemma_table_replace(before, i as int, value);
                }
            },
            None => {
                self.entries.push(CacheEntry { session: s, function: f, value });
                proof {
                    assert(cache_pairs(self.entries@) =~= before.push(((s, f), value)));
                    lemma_table_push(before, (s, f), value);
                }
            },
        }
    }

    /// The functions of a session that have a cached value, each once.
    pub fn functions_of(&self, s: SessionIdentity) -> (known: Vec<FunctionIdentity>)
        ensures
            known@.no_duplicates(),
            known@.to_set() == session_functions(self.entries(), s),
    {
        let mut known: Vec<FunctionIdentity> = Vec::new();
        let ghost all = cache_pairs(self.entries@);
        let mut i: usize = 0;
        proof {
            assert(known@.to_set() =~= session_functions(table_of(all.take(0)), s));
        }
        while i < self.entries.len()
            invariant
                i <= self.entries.len(),
                all == cache_pairs(self.entries@),
                known@.no_duplicates(),
                known@.to_set() == session_functions(table_of(all.take(i as int)), s),
            decreases self.entries.len() - i,
        {
            let f = self.entries[i].function;
            let ghost shorter = table_of(all.take(i as int));
            let ghost longer = table_of(all.take(i + 1));
            proof {
                assert(all.take(i + 1).drop_last() =~= all.take(i as int));
                assert(longer.dom() =~= shorter.dom().insert(all[i as int].0));
            }
            if self.entries[i].session == s {
                proof {
                    assert(session_functions(longer, s) =~= session_functions(shorter, s).insert(
                        f,
                    ));
                }
                if !function_listed(&known, f) {
                    let ghost before = known@;
                    known.push(f);
                    proof {
                        before.lemma_push_to_set_commute(f);
                    }
                } else {
                    proof {
                        assert(known@.to_set().insert(f) =~= known@.to_set());
                    }
                }
            } else {
                proof {
                    assert(session_functions(longer, s) =~= session_functions(shorter, s));
                }
            }
            i += 1;
        }
        proof {
            assert(all.take(self.entries.len() as int) =~= all);
        }
        known
    }

    /// The number of functions of a session that have a cached value.
    pub fn session_len(&self, s: SessionIdentity) -> (count: usize)
        ensures
            session_functions(self.entries(), s).finite(),
            count == session_functions(self.entries(), s).len(),
    {
        let known = self.functions_of(s);
        proof {
            known@.unique_seq_to_set();
            vstd::seq_lib::seq_to_set_is_finite(known@);
        }
        known.len()
    }

    /// Removes the entries of one session. The entries of every other
    /// session stay as they are.
    pub fn invalidate(&mut self, s: SessionIdentity)
        ensures
            final(self).entries() == without_session(old(self).entries(), s),
    {
        let mut i: usize = 0;
        while i < self.entries.len()
            invariant
                i <= self.entries.len(),
                forall|j: int| 0 <= j < i ==> self.entries[j].session != s,
                without_session(self.entries(), s) == without_session(old(self).entries(), s),
            decreases self.entries.len() - i,
        {
            if self.entries[i].session == s {
                let ghost current = cache_pairs(self.entries@);
                self.entries.remove(i);
                proof {
                    assert(cache_pairs(self.entries@) =~= current.remove(i as int));
                    let fewer = table_of(current.remove(i as int));
                    let all = table_of(current);
                    assert forall|key: CacheKey|
                        #![trigger fewer.dom().contains(key)]
                        #![trigger all.dom().contains(key)]
                        key.0 != s implies (fewer.dom().contains(key) == all.dom().contains(key)
                        && (fewer.dom().contains(key) ==> fewer[key] == all[key])) by {
                        lemma_table_remove(current, i as int, key);
                    }
                    assert(without_session(table_of(current.remove(i as int)), s)
                        =~= without_session(table_of(current), s));
                }
            } else {
                i += 1;
            }
        }
        proof {
            assert forall|key: CacheKey| key.0 == s implies !self.entries().contains_key(key) by {
                lemma_table_absent(cache_pairs(self.entries@), key);
            }
            assert(self.entries() =~= without_session(self.entries(), s));
        }
    }
}

/// Purging a session leaves every entry of every other session in place
/// and unchanged, and leaves no entry of the purged session.
pub proof fn lemma_invalidate_isolated<V>(
    entries: Map<CacheKey, V>,
    s: SessionIdentity,
    key: CacheKey,
)
    ensures
        key.0 == s ==> !without_session(entries, s).contains_key(key),
        key.0 != s ==> without_session(entries, s).contains_key(key) == entries.contains_key(key),
        key.0 != s && entries.contains_key(key) ==> without_session(entries, s)[key]
            == entries[key],
{
}

/// Purging a session a second time changes nothing, so a teardown notice
/// that comes twice, or for a session with nothing cached, is harmless.
pub proof fn lemma_invalidate_idempotent<V>(entries: Map<CacheKey, V>, s: SessionIdentity)
    ensures
        without_session(without_session(entries, s), s) == without_session(entries, s),
        (forall|key: CacheKey| entries.contains_key(key) ==> key.0 != s) ==> without_session(
            entries,
            s,
        ) == entries,
{
    assert(without_session(without_session(entries, s), s) =~= without_session(entries, s));
    if forall|key: CacheKey| entries.contains_key(key) ==> key.0 != s {
        assert(without_session(entries, s) =~= entries);
    }
}

/// The representation as a sequence of bytes, where there is one.
pub open spec fn representation_view(representation: Option<&[u8]>) -> Option<Seq<u8>> {
    match representation {
        Some(bytes) => Some(bytes@),
        None => None,
    }
}

/// The answer to a fingerprint request: the cached fingerprint where the
/// function has one, else the one computed from the representation.
pub open spec fn fingerprint_answer(
    before: Map<CacheKey, Fingerprint>,
    key: CacheKey,
    representation: Option<Seq<u8>>,
) -> Result<Fingerprint, UnavailableRepresentation> {
    if before.contains_key(key) {
        Ok(before[key])
    } else {
        fingerprint_of(representation)
    }
}

/// The fingerprint cache after a request was answered: a fingerprint that
/// had to be computed is cached, and nothing else changes.
pub open spec fn fingerprint_cached(
    before: Map<CacheKey, Fingerprint>,
    key: CacheKey,
    answer: Result<Fingerprint, UnavailableRepresentation>,
) -> Map<CacheKey, Fingerprint> {
    match answer {
        Ok(g) => before.insert(key, g),
        Err(_) => before,
    }
}

/// Whether `outcome` and the cache `after` are what a match request for
/// `key` gives on the cache `before`: the cached outcome and no change
/// where there is one, else the outcome for `candidates`, which is then
/// cached under `key` and nowhere else.
pub open spec fn outcome_served(
    before: Map<CacheKey, Outcome>,
    key: CacheKey,
    candidates: Set<RecordView>,
    outcome: OutcomeView,
    after: Map<CacheKey, Outcome>,
) -> bool {
    if before.contains_key(key) {
        after == before && outcome == before[key]@
    } else {
        &&& outcome.reports(candidates)
        &&& after.dom() == before.dom().insert(key)
        &&& after[key]@ == outcome
        &&& forall|other: CacheKey|
            other != key && before.contains_key(other) ==> after[other] == before[other]
    }
}

/// The signature extracted from a function: its fingerprint with the
/// symbol name and the type signature that the host reports for it.
pub open spec fn extracted(g: Fingerprint, symbol: Seq<char>, signature: Seq<char>) -> RecordView {
    RecordView { fingerprint: g, symbol, signature, provenance: None }
}

/// Whether `record` and the cache `after` are what a signature request for
/// `key` gives on the cache `before`: the cached signature and no change
/// where there is one, else `fresh`, which is then cached under `key` and
/// nowhere else.
pub open spec fn signature_served(
    before: Map<CacheKey, SignatureRecord>,
    key: CacheKey,
    fresh: RecordView,
    record: RecordView,
    after: Map<CacheKey, SignatureRecord>,
) -> bool {
    if before.contains_key(key) {
        after == before && record == before[key]@
    } else {
        &&& record == fresh
        &&& after.dom() == before.dom().insert(key)
        &&& after[key]@ == fresh
        &&& forall|other: CacheKey|
            other != key && before.contains_key(other) ==> after[other] == before[other]
    }
}

/// The three caches of the open sessions: the fingerprint computed for a
/// function, the signature extracted from it, and the outcome of matching it.
#[derive(Clone, Debug)]
pub struct SessionCaches {
    pub fingerprints: SessionCache<Fingerprint>,
    pub signatures: SessionCache<SignatureRecord>,
    pub outcomes: SessionCache<Outcome>,
}

impl SessionCaches {
    /// Three empty caches.
    pub fn new() -> (caches: SessionCaches)
        ensures
            caches.fingerprints.entries() == Map::<CacheKey, Fingerprint>::empty(),
            caches.signatures.entries() == Map::<CacheKey, SignatureRecord>::empty(),
            caches.outcomes.entries() == Map::<CacheKey, Outcome>::empty(),
    {
        SessionCaches {
            fingerprints: SessionCache::new(),
            signatures: SessionCache::new(),
            outcomes: SessionCache::new(),
        }
    }

    /// Purges one session from all three caches. This is what a session's
    /// teardown triggers; other sessions keep everything.
    pub fn invalidate(&mut self, s: SessionIdentity)
        ensures
            final(self).fingerprints.entries() == without_session(
                old(self).fingerprints.entries(),
                s,
            ),
            final(self).signatures.entries() == without_session(old(self).signatures.entries(), s),
            final(self).outcomes.entries() == without_session(old(self).outcomes.entries(), s),
    {
        self.fingerprints.invalidate(s);
        self.signatures.invalidate(s);
        self.outcomes.invalidate(s);
    }

    /// The fingerprint of a function: the cached one if there is one, else
    /// the one computed from the representation, which is then cached. A
    /// missing representation fails for this function alone and caches
    /// nothing.
    pub fn fingerprint_for(
        &mut self,
        s: SessionIdentity,
        f: FunctionIdentity,
        representation: Option<&[u8]>,
    ) -> (result: Result<Fingerprint, UnavailableRepresentation>)
        ensures
            final(self).signatures == old(self).signatures,
            final(self).outcomes == old(self).outcomes,
            result == fingerprint_answer(
                old(self).fingerprints.entries(),
                (s, f),
                representation_view(representation),
            ),
            final(self).fingerprints.entries() == fingerprint_cached(
                old(self).fingerprints.entries(),
                (s, f),
                result,
            ),
    {
        match self.fingerprints.get(s, f) {
            Some(g) => Ok(*g),
            None => {
                match compute_fingerprint(representation) {
                    Ok(g) => {
                        self.fingerprints.insert(s, f, g);
                        Ok(g)
                    },
                    Err(e) => Err(e),
                }
            },
        }
    }

    /// The signature of a function: a copy of the cached one if there is
    /// one, else its fingerprint, as `fingerprint_for` gives it, with the
    /// symbol name and the type signature handed in; a copy is then cached.
    /// A function with no cached signature, no cached fingerprint and no
    /// representation fails alone, and nothing is cached for it.
    pub fn signature_for(
        &mut self,
        s: SessionIdentity,
        f: FunctionIdentity,
        representation: Option<&[u8]>,
        symbol: String,
        signature: String,
    ) -> (result: Result<SignatureRecord, UnavailableRepresentation>)
        ensures
            final(self).outcomes == old(self).outcomes,
            old(self).signatures.entries().contains_key((s, f)) ==> {
                &&& result is Ok
                &&& result->Ok_0@ == old(self).signatures.entries()[(s, f)]@
                &&& final(self).signatures.entries() == old(self).signatures.entries()
                &&& final(self).fingerprints.entries() == old(self).fingerprints.entries()
            },
            !old(self).signatures.entries().contains_key((s, f)) ==> {
                let answer = fingerprint_answer(
                    old(self).fingerprints.entries(),
                    (s, f),
                    representation_view(representation),
                );
                &&& final(self).fingerprints.entries() == fingerprint_cached(
                    old(self).fingerprints.entries(),
                    (s, f),
                    answer,
                )
                &&& match answer {
                    Err(_) => {
                        &&& result == Err::<SignatureRecord, UnavailableRepresentation>(
                            UnavailableRepresentation,
                        )
                        &&& final(self).signatures.entries() == old(self).signatures.entries()
                    },
                    Ok(g) => {
                        &&& result is Ok
                        &&& signature_served(
                            old(self).signatures.entries(),
                            (s, f),
                            extracted(g, symbol@, signature@),
                            result->Ok_0@,
                            final(self).signatures.entries(),
                        )
                    },
                }
            },
    {
        match self.signatures.get(s, f) {
            Some(cached) => Ok(cached.duplicate()),
            None => {
                match self.fingerprint_for(s, f, representation) {
                    Err(e) => Err(e),
                    Ok(g) => {
                        let record = SignatureRecord::new(g, symbol, signature, None);
                        let copy = record.duplicate();
                        self.signatures.insert(s, f, copy);
                        proof {
                            assert(self.signatures.entries().dom() =~= old(self).signatures.entries().dom().insert((s, f)));
                        }
                        Ok(record)
                    },
                }
            },
        }
    }

    /// The outcome of matching a function: a copy of the cached one if
    /// there is one, else what the store's lookup gives for the
    /// fingerprint, a copy of which is then cached.
    pub fn match_for(
        &mut self,
        store: &SignatureStore,
        s: SessionIdentity,
        f: FunctionIdentity,
        g: Fingerprint,
    ) -> (outcome: Outcome)
        ensures
            final(self).fingerprints == old(self).fingerprints,
            final(self).signatures == old(self).signatures,
            outcome_served(
                old(self).outcomes.entries(),
                (s, f),
                store.candidates(g),
                outcome@,
                final(self).outcomes.entries(),
            ),
    {
        match self.outcomes.get(s, f) {
            Some(cached) => cached.duplicate(),
            None => {
                let outcome = store.lookup(g);
                let copy = outcome.duplicate();
                self.outcomes.insert(s, f, copy);
                proof {
                    assert(self.outcomes.entries().dom() =~= old(self).outcomes.entries().dom().insert((s, f)));
                }
                outcome
            },
        }
    }
}

} // verus!
