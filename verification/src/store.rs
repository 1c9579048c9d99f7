//! The signature store: for each fingerprint a set of candidate records, and
//! for each type identity one definition.

use vstd::prelude::*;
use crate::fingerprint::Fingerprint;
use crate::identity::TypeIdentity;
use crate::record::{record_views, RecordView, SignatureRecord};
use crate::table::{lemma_table_absent, lemma_table_first, lemma_table_push, offered, table_of};

verus! {

/// A type definition, held as its name and its textual form.
#[derive(Clone, Debug, PartialEq, Eq)]
pub struct TypeDefinition {
    pub name: String,
    pub definition: String,
}

/// The mathematical value of a `TypeDefinition`.
pub struct TypeView {
    pub name: Seq<char>,
    pub definition: Seq<char>,
}

impl View for TypeDefinition {
    type V = TypeView;

    open spec fn view(&self) -> TypeView {
        TypeView { name: self.name@, definition: self.definition@ }
    }
}

impl TypeDefinition {
    /// A copy of the definition with the same value.
    pub fn duplicate(&self) -> (copy: TypeDefinition)
        ensures
            copy@ == self@,
    {
        TypeDefinition { name: self.name.clone(), definition: self.definition.clone() }
    }
}

/// What a lookup found for one fingerprint.
#[derive(Clone, Debug, PartialEq, Eq)]
pub enum Outcome {
    /// No record carries the fingerprint.
    NoMatch,
    /// Exactly one record carries it: safe to apply automatically.
    Unique(SignatureRecord),
    /// Two or more distinct records carry it: reported, never applied.
    Ambiguous(Vec<SignatureRecord>),
}

/// The mathematical value of an `Outcome`.
pub enum OutcomeView {
    NoMatch,
    Unique(RecordView),
    Ambiguous(Seq<RecordView>),
}

impl View for Outcome {
    type V = OutcomeView;

    open spec fn view(&self) -> OutcomeView {
        match *self {
            Outcome::NoMatch => OutcomeView::NoMatch,
            Outcome::Unique(record) => OutcomeView::Unique(record@),
            Outcome::Ambiguous(records) => OutcomeView::Ambiguous(record_views(records@)),
        }
    }
}

impl OutcomeView {
    /// The candidates that the outcome reports.
    pub open spec fn candidates(self) -> Set<RecordView> {
        match self {
            OutcomeView::NoMatch => Set::empty(),
            OutcomeView::Unique(record) => set![record],
            OutcomeView::Ambiguous(records) => records.to_set(),
        }
    }

    /// An ambiguous outcome lists at least two candidates, each once.
    pub open spec fn well_formed(self) -> bool {
        match self {
            OutcomeView::Ambiguous(records) => records.len() >= 2 && records.no_duplicates(),
            _ => true,
        }
    }

    /// Whether this is the outcome for the given finite set of candidates:
    /// it reports exactly that set, and which of the three cases it is
    /// depends on the number of candidates alone.
    pub open spec fn reports(self, candidates: Set<RecordView>) -> bool {
        &&& self.well_formed()
        &&& self.candidates() == candidates
        &&& (self is NoMatch <==> candidates.len() == 0)
        &&& (self is Unique <==> candidates.len() == 1)
        &&& (self is Ambiguous <==> candidates.len() >= 2)
    }
}

impl Outcome {
    /// Whether the outcome may be applied without asking: only a unique one.
    pub fn applies_automatically(&self) -> (yes: bool)
        ensures
            yes == (self is Unique),
    {
        match self {
            Outcome::Unique(_) => true,
            _ => false,
        }
    }

    /// A copy of the outcome with the same value.
    pub fn duplicate(&self) -> (copy: Outcome)
        ensures
            copy@ == self@,
    {
        match self {
            Outcome::NoMatch => Outcome::NoMatch,
            Outcome::Unique(record) => Outcome::Unique(record.duplicate()),
            Outcome::Ambiguous(records) => {
                let mut copies: Vec<SignatureRecord> = Vec::new();
                let mut i: usize = 0;
                while i < records.len()
                    invariant
                        i <= records.len(),
                        record_views(copies@) == record_views(records@.take(i as int)),
                    decreases records.len() - i,
                {
                    let ghost before = record_views(copies@);
                    copies.push(records[i].duplicate());
                    proof {
                        assert(record_views(copies@) =~= before.push(records[i as int]@));
                        assert(record_views(records@.take(i + 1)) =~= record_views(
                            records@.take(i as int),
                        ).push(records[i as int]@));
                    }
                    i += 1;
                }
                proof {
                    assert(records@.take(records.len() as int) =~= records@);
                }
                Outcome::Ambiguous(copies)
            },
        }
    }
}

/// Taking one more element of a sequence adds that element to its set.
proof fn lemma_take_next_to_set<A>(s: Seq<A>, i: int)
    requires
        0 <= i < s.len(),
    ensures
        s.take(i + 1).to_set() == s.take(i).to_set().insert(s[i]),
{
    assert(s.take(i + 1) =~= s.take(i).push(s[i]));
    s.take(i).lemma_push_to_set_commute(s[i]);
}

/// The candidates among `records` that carry fingerprint `g`.
pub open spec fn candidates_in(records: Set<RecordView>, g: Fingerprint) -> Set<RecordView> {
    records.filter(|record: RecordView| record.fingerprint == g)
}

/// The table from fingerprint to candidate set that a set of records forms.
/// A fingerprint is a key exactly when some record carries it, so no key maps
/// to an empty set.
pub open spec fn functions_of(records: Set<RecordView>) -> Map<Fingerprint, Set<RecordView>> {
    Map::new(
        |g: Fingerprint| exists|record: RecordView| #[trigger]
            records.contains(record) && record.fingerprint == g,
        |g: Fingerprint| candidates_in(records, g),
    )
}

/// The table of types after `other` is merged into `base`: every identity of
/// either, with the definition of `base` wherever both define one.
pub open spec fn merged_types(
    base: Map<TypeIdentity, TypeView>,
    other: Map<TypeIdentity, TypeView>,
) -> Map<TypeIdentity, TypeView> {
    other.union_prefer_right(base)
}

#[derive(Clone, Debug)]
struct TypeEntry {
    id: TypeIdentity,
    definition: TypeDefinition,
}

/// The identity and the value of each entry, in the same order.
spec fn type_pairs(entries: Seq<TypeEntry>) -> Seq<(TypeIdentity, TypeView)> {
    entries.map_values(|entry: TypeEntry| (entry.id, entry.definition@))
}

/// The identity and the value of each listed definition, in the same order.
pub open spec fn definition_views(definitions: Seq<(TypeIdentity, TypeDefinition)>) -> Seq<
    (TypeIdentity, TypeView),
> {
    definitions.map_values(|pair: (TypeIdentity, TypeDefinition)| (pair.0, pair.1@))
}

/// Whether a list holds a record with the given value.
fn list_holds(list: &Vec<SignatureRecord>, record: &SignatureRecord) -> (found: bool)
    ensures
        found == record_views(list@).to_set().contains(record@),
{
    let mut i: usize = 0;
    while i < list.len()
        invariant
            i <= list.len(),
            forall|j: int| 0 <= j < i ==> record_views(list@)[j] != record@,
        decreases list.len() - i,
    {
        if list[i].same_as(record) {
            proof {
                assert(record_views(list@)[i as int] == record@);
            }
            return true;
        }
        i += 1;
    }
    false
}

/// Whether a list of type identities holds the given one.
fn identity_listed(list: &Vec<TypeIdentity>, id: TypeIdentity) -> (found: bool)
    ensures
        found == list@.to_set().contains(id),
{
    let mut i: usize = 0;
    while i < list.len()
        invariant
            i <= list.len(),
            forall|j: int| 0 <= j < i ==> list@[j] != id,
        decreases list.len() - i,
    {
        if list[i] == id {
            return true;
        }
        i += 1;
    }
    false
}

/// Whether a list of fingerprints holds the given one.
fn fingerprint_listed(list: &Vec<Fingerprint>, g: Fingerprint) -> (found: bool)
    ensures
        found == list@.to_set().contains(g),
{
    let mut i: usize = 0;
    while i < list.len()
        invariant
            i <= list.len(),
            forall|j: int| 0 <= j < i ==> list@[j] != g,
        decreases list.len() - i,
    {
        if list[i] == g {
            return true;
        }
        i += 1;
    }
    false
}

/// Adding a record to a set of records adds its fingerprint to the keys of
/// the function table.
proof fn lemma_functions_insert(records: Set<RecordView>, record: RecordView)
    ensures
        functions_of(records.insert(record)).dom() == functions_of(records).dom().insert(
            record.fingerprint,
        ),
{
    let more = records.insert(record);
    assert forall|g: Fingerprint|
        functions_of(more).dom().contains(g) <==> functions_of(records).dom().insert(
            record.fingerprint,
        ).contains(g) by {
        if functions_of(more).dom().contains(g) {
            let r = choose|r: RecordView| #[trigger] more.contains(r) && r.fingerprint == g;
            if r != record {
                assert(records.contains(r));
            }
        }
        if functions_of(records).dom().contains(g) {
            let r = choose|r: RecordView| #[trigger] records.contains(r) && r.fingerprint == g;
            assert(more.contains(r));
        }
        if g == record.fingerprint {
            assert(more.contains(record));
        }
    }
    assert(functions_of(more).dom() =~= functions_of(records).dom().insert(record.fingerprint));
}

/// A store of signature data.
#[derive(Clone, Debug)]
pub struct SignatureStore {
    records: Vec<SignatureRecord>,
    types: Vec<TypeEntry>,
}

impl SignatureStore {
    /// Every record of the store.
    pub closed spec fn records(self) -> Set<RecordView> {
        record_views(self.records@).to_set()
    }

    /// The type definitions of the store, by identity.
    pub closed spec fn types(self) -> Map<TypeIdentity, TypeView> {
        table_of(type_pairs(self.types@))
    }

    /// The candidates for one fingerprint: empty when it is unknown.
    pub open spec fn candidates(self, g: Fingerprint) -> Set<RecordView> {
        candidates_in(self.records(), g)
    }

    /// The table from fingerprint to non-empty candidate set.
    pub open spec fn functions(self) -> Map<Fingerprint, Set<RecordView>> {
        functions_of(self.records())
    }

    /// Whether `after` is what merging `other` into `self` gives: the
    /// records of both, each once, and the types of both with the
    /// definitions of `self` kept.
    pub open spec fn merged_with(self, other: SignatureStore, after: SignatureStore) -> bool {
        &&& after.records() == self.records().union(other.records())
        &&& after.types() == merged_types(self.types(), other.types())
    }

    /// Every key of the function table has at least one candidate.
    pub proof fn lemma_no_empty_candidate_set(self, g: Fingerprint)
        requires
            self.functions().contains_key(g),
        ensures
            self.functions()[g].finite(),
            self.functions()[g].len() > 0,
    {
        self.lemma_records_finite();
        let witness = choose|record: RecordView| #[trigger]
            self.records().contains(record) && record.fingerprint == g;
        assert(self.functions()[g].contains(witness));
        self.records().lemma_len_filter(|record: RecordView| record.fingerprint == g);
    }

    /// What a lookup says of the function table: `NoMatch` exactly for a
    /// fingerprint that is no key of it, `Unique` with the record exactly
    /// where the key has one candidate, and `Ambiguous` with all of them
    /// where it has more.
    pub proof fn lemma_lookup_tri_state(self, g: Fingerprint, outcome: OutcomeView)
        requires
            outcome.reports(self.candidates(g)),
        ensures
            outcome is NoMatch <==> !self.functions().contains_key(g),
            outcome is Unique ==> self.functions()[g] == set![outcome->Unique_0],
            outcome is Ambiguous ==> self.functions()[g] == outcome->Ambiguous_0.to_set(),
            forall|r: RecordView|
                self.functions().contains_key(g) && self.functions()[g] == set![r] ==> outcome
                    == OutcomeView::Unique(r),
            forall|r1: RecordView, r2: RecordView|
                r1 != r2 && self.functions().contains_key(g) && self.functions()[g] == set![r1, r2]
                    ==> outcome is Ambiguous && outcome->Ambiguous_0.to_set() == set![r1, r2],
    {
        let found = self.candidates(g);
        self.lemma_records_finite();
        self.records().lemma_len_filter(|record: RecordView| record.fingerprint == g);
        if self.functions().contains_key(g) {
            self.lemma_no_empty_candidate_set(g);
        } else {
            assert forall|record: RecordView| !found.contains(record) by {
                if found.contains(record) {
                    assert(self.records().contains(record) && record.fingerprint == g);
                }
            }
            assert(found =~= Set::<RecordView>::empty());
        }
        assert forall|r: RecordView|
            self.functions().contains_key(g) && self.functions()[g] == set![r] implies outcome
            == OutcomeView::Unique(r) by {
            assert(set![r].len() == 1);
            assert(set![outcome->Unique_0].contains(r));
        }
        assert forall|r1: RecordView, r2: RecordView|
            r1 != r2 && self.functions().contains_key(g) && self.functions()[g]
                == set![r1, r2] implies outcome is Ambiguous && outcome->Ambiguous_0.to_set()
            == set![r1, r2] by {
            assert(set![r1, r2] =~= set![r1].insert(r2));
            assert(set![r1].len() == 1);
            assert(set![r1, r2].len() == 2);
        }
    }

    /// A merge drops nothing: after it, the candidates for any fingerprint
    /// are those of the store before together with those of the other store.
    pub proof fn lemma_merge_candidates(
        self,
        other: SignatureStore,
        after: SignatureStore,
        g: Fingerprint,
    )
        requires
            self.merged_with(other, after),
        ensures
            after.candidates(g) == self.candidates(g).union(other.candidates(g)),
            after.functions().contains_key(g) <==> self.functions().contains_key(g)
                || other.functions().contains_key(g),
    {
        assert(after.candidates(g) =~= self.candidates(g).union(other.candidates(g)));
        if self.functions().contains_key(g) {
            let r = choose|record: RecordView| #[trigger]
                self.records().contains(record) && record.fingerprint == g;
            assert(after.records().contains(r));
        }
        if other.functions().contains_key(g) {
            let r = choose|record: RecordView| #[trigger]
                other.records().contains(record) && record.fingerprint == g;
            assert(after.records().contains(r));
        }
        if after.functions().contains_key(g) {
            let r = choose|record: RecordView| #[trigger]
                after.records().contains(record) && record.fingerprint == g;
            assert(self.records().contains(r) || other.records().contains(r));
        }
    }

    /// For a fingerprint that both stores know, the merged candidate set is
    /// the union of the two sets.
    pub proof fn lemma_merge_union(
        self,
        other: SignatureStore,
        after: SignatureStore,
        g: Fingerprint,
    )
        requires
            self.merged_with(other, after),
            self.functions().contains_key(g),
            other.functions().contains_key(g),
        ensures
            after.functions().contains_key(g),
            after.functions()[g] == self.functions()[g].union(other.functions()[g]),
    {
        self.lemma_merge_candidates(other, after, g);
    }

    /// For a fingerprint that only the other store knows, the merge takes
    /// its whole candidate set.
    pub proof fn lemma_merge_takes_new(
        self,
        other: SignatureStore,
        after: SignatureStore,
        g: Fingerprint,
    )
        requires
            self.merged_with(other, after),
            !self.functions().contains_key(g),
            other.functions().contains_key(g),
        ensures
            after.functions().contains_key(g),
            after.functions()[g] == other.functions()[g],
    {
        self.lemma_merge_candidates(other, after, g);
        assert(self.candidates(g) =~= Set::<RecordView>::empty()) by {
            assert forall|record: RecordView| !self.candidates(g).contains(record) by {
                if self.candidates(g).contains(record) {
                    assert(self.records().contains(record) && record.fingerprint == g);
                }
            }
        }
        assert(after.candidates(g) =~= other.candidates(g));
    }

    /// The function table after a merge holds every key of the table
    /// before, with at least the candidates it had.
    pub proof fn lemma_merge_keeps_functions(
        self,
        other: SignatureStore,
        after: SignatureStore,
        g: Fingerprint,
    )
        requires
            self.merged_with(other, after),
            self.functions().contains_key(g),
        ensures
            after.functions().contains_key(g),
            self.functions()[g].subset_of(after.functions()[g]),
    {
        self.lemma_merge_candidates(other, after, g);
    }

    /// Merging the same store a second time changes nothing.
    pub proof fn lemma_merge_idempotent(
        self,
        other: SignatureStore,
        once: SignatureStore,
        twice: SignatureStore,
    )
        requires
            self.merged_with(other, once),
            once.merged_with(other, twice),
        ensures
            twice.records() == once.records(),
            twice.functions() == once.functions(),
            twice.types() == once.types(),
    {
        assert(twice.records() =~= once.records());
        assert(twice.types() =~= once.types());
    }

    /// Where both stores define a type, the merge keeps the definition that
    /// the store had before.
    pub proof fn lemma_merge_first_definition_stays(
        self,
        other: SignatureStore,
        after: SignatureStore,
        t: TypeIdentity,
    )
        requires
            self.merged_with(other, after),
            self.types().contains_key(t),
        ensures
            after.types().contains_key(t),
            after.types()[t] == self.types()[t],
    {
    }

    /// A type that only the other store defines is taken from it.
    pub proof fn lemma_merge_takes_new_type(
        self,
        other: SignatureStore,
        after: SignatureStore,
        t: TypeIdentity,
    )
        requires
            self.merged_with(other, after),
            !self.types().contains_key(t),
            other.types().contains_key(t),
        ensures
            after.types().contains_key(t),
            after.types()[t] == other.types()[t],
    {
    }

    /// The store has finitely many records.
    pub proof fn lemma_records_finite(self)
        ensures
            self.records().finite(),
    {
        vstd::seq_lib::seq_to_set_is_finite(record_views(self.records@));
    }

    /// An empty store.
    pub fn new() -> (store: SignatureStore)
        ensures
            store.records() == Set::<RecordView>::empty(),
            store.types() == Map::<TypeIdentity, TypeView>::empty(),
    {
        let store = SignatureStore { records: Vec::new(), types: Vec::new() };
        proof {
            assert(store.records() =~= Set::<RecordView>::empty());
        }
        store
    }

    /// A store built from listed records and type definitions: every
    /// record once, and for each type identity the first definition listed.
    pub fn from_data(
        records: &Vec<SignatureRecord>,
        definitions: &Vec<(TypeIdentity, TypeDefinition)>,
    ) -> (store: SignatureStore)
        ensures
            store.records() == record_views(records@).to_set(),
            store.types() == table_of(definition_views(definitions@)),
    {
        let mut store = SignatureStore::new();
        let ghost listed = record_views(records@);
        let mut i: usize = 0;
        while i < records.len()
            invariant
                i <= records.len(),
                listed == record_views(records@),
                store.types() == Map::<TypeIdentity, TypeView>::empty(),
                store.records() == listed.take(i as int).to_set(),
            decreases records.len() - i,
        {
            proof {
                lemma_take_next_to_set(listed, i as int);
            }
            store.add_record(records[i].duplicate());
            i += 1;
        }
        proof {
            assert(listed.take(records.len() as int) =~= listed);
        }
        let ghost offers = definition_views(definitions@);
        let mut k: usize = 0;
        while k < definitions.len()
            invariant
                k <= definitions.len(),
                offers == definition_views(definitions@),
                store.records() == listed.to_set(),
                store.types() == table_of(offers.take(k as int)),
            decreases definitions.len() - k,
        {
            proof {
                assert(offers.take(k + 1).drop_last() =~= offers.take(k as int));
            }
            store.add_type(definitions[k].0, definitions[k].1.duplicate());
            k += 1;
        }
        proof {
            assert(offers.take(definitions.len() as int) =~= offers);
        }
        store
    }

    /// Whether the store holds a record with the same value.
    pub fn contains_record(&self, record: &SignatureRecord) -> (found: bool)
        ensures
            found == self.records().contains(record@),
    {
        list_holds(&self.records, record)
    }

    /// Adds a record as one more candidate for its fingerprint, unless the
    /// store holds it already.
    pub fn add_record(&mut self, record: SignatureRecord)
        ensures
            final(self).records() == old(self).records().insert(record@),
            final(self).types() == old(self).types(),
    {
        if !list_holds(&self.records, &record) {
            let ghost before = record_views(self.records@);
            self.records.push(record);
            proof {
                assert(record_views(self.records@) =~= before.push(record@));
                before.lemma_push_to_set_commute(record@);
            }
        } else {
            proof {
                assert(self.records().insert(record@) =~= self.records());
            }
        }
    }

    /// The position of the first type entry under `id`, if there is one.
    fn type_position(&self, id: TypeIdentity) -> (position: Option<usize>)
        ensures
            match position {
                Some(i) => i < self.types.len() && self.types[i as int].id == id
                    && self.types().contains_key(id) && self.types()[id]
                    == self.types[i as int].definition@,
                None => !self.types().contains_key(id),
            },
    {
        let mut i: usize = 0;
        while i < self.types.len()
            invariant
                i <= self.types.len(),
                forall|j: int| 0 <= j < i ==> self.types[j].id != id,
            decreases self.types.len() - i,
        {
            if self.types[i].id == id {
                proof {
                    lemma_table_first(type_pairs(self.types@), i as int);
                }
                return Some(i);
            }
            i += 1;
        }
        proof {
            lemma_table_absent(type_pairs(self.types@), id);
        }
        None
    }

    /// The definition held under a type identity, if there is one.
    pub fn type_of(&self, id: TypeIdentity) -> (found: Option<&TypeDefinition>)
        ensures
            match found {
                Some(definition) => self.types().contains_key(id) && self.types()[id]
                    == definition@,
                None => !self.types().contains_key(id),
            },
    {
        match self.type_position(id) {
            Some(i) => Some(&self.types[i].definition),
            None => None,
        }
    }

    /// Offers a type definition under `id`. It is taken only where the store
    /// has none under that identity: the first definition stays.
    pub fn add_type(&mut self, id: TypeIdentity, definition: TypeDefinition)
        ensures
            final(self).types() == offered(old(self).types(), id, definition@),
            final(self).records() == old(self).records(),
    {
        let ghost before = type_pairs(self.types@);
        self.types.push(TypeEntry { id, definition });
        proof {
            assert(type_pairs(self.types@) =~= before.push((id, definition@)));
            lemma_table_push(before, id, definition@);
        }
    }

    /// Looks a fingerprint up. No candidate gives `NoMatch`, exactly one
    /// gives `Unique`, and two or more give `Ambiguous` with every one of
    /// them listed once.
    pub fn lookup(&self, g: Fingerprint) -> (outcome: Outcome)
        ensures
            outcome@.reports(self.candidates(g)),
    {
        let mut found: Vec<SignatureRecord> = Vec::new();
        let ghost all = record_views(self.records@);
        let mut i: usize = 0;
        while i < self.records.len()
            invariant
                i <= self.records.len(),
                all == record_views(self.records@),
                record_views(found@).no_duplicates(),
                record_views(found@).to_set() == candidates_in(all.take(i as int).to_set(), g),
            decreases self.records.len() - i,
        {
            let ghost seen = record_views(found@);
            proof {
                lemma_take_next_to_set(all, i as int);
            }
            if self.records[i].fingerprint == g && !list_holds(&found, &self.records[i]) {
                found.push(self.records[i].duplicate());
                proof {
                    assert(record_views(found@) =~= seen.push(all[i as int]));
                    seen.lemma_push_to_set_commute(all[i as int]);
                    assert(seen.push(all[i as int]).to_set() =~= candidates_in(
                        all.take(i + 1).to_set(),
                        g,
                    ));
                }
            } else {
                proof {
                    assert(seen.to_set() =~= candidates_in(all.take(i + 1).to_set(), g));
                }
            }
            i += 1;
        }
        proof {
            assert(all.take(self.records.len() as int) =~= all);
            record_views(found@).unique_seq_to_set();
        }
        let ghost listed = record_views(found@);
        if found.len() == 0 {
            proof {
                assert(listed.to_set() =~= Set::<RecordView>::empty());
            }
            Outcome::NoMatch
        } else if found.len() == 1 {
            let record = found.pop().unwrap();
            proof {
                assert(listed[0] == record@);
                assert(listed.to_set() =~= set![record@]);
            }
            Outcome::Unique(record)
        } else {
            Outcome::Ambiguous(found)
        }
    }

    /// The fingerprints that the store has candidates for, each once.
    pub fn fingerprints(&self) -> (known: Vec<Fingerprint>)
        ensures
            known@.no_duplicates(),
            known@.to_set() == self.functions().dom(),
    {
        let mut known: Vec<Fingerprint> = Vec::new();
        let ghost all = record_views(self.records@);
        let mut i: usize = 0;
        proof {
            assert(all.take(0).to_set() =~= Set::<RecordView>::empty());
            assert(functions_of(Set::<RecordView>::empty()).dom() =~= Set::<Fingerprint>::empty());
            assert(known@.to_set() =~= Set::<Fingerprint>::empty());
        }
        while i < self.records.len()
            invariant
                i <= self.records.len(),
                all == record_views(self.records@),
                known@.no_duplicates(),
                known@.to_set() == functions_of(all.take(i as int).to_set()).dom(),
            decreases self.records.len() - i,
        {
            let g = self.records[i].fingerprint;
            proof {
                lemma_take_next_to_set(all, i as int);
                lemma_functions_insert(all.take(i as int).to_set(), all[i as int]);
            }
            if !fingerprint_listed(&known, g) {
                let ghost before = known@;
                known.push(g);
                proof {
                    before.lemma_push_to_set_commute(g);
                }
            } else {
                proof {
                    assert(known@.to_set().insert(g) =~= known@.to_set());
                }
            }
            i += 1;
        }
        proof {
            assert(all.take(self.records.len() as int) =~= all);
        }
        known
    }

    /// The number of fingerprints that the store has candidates for.
    pub fn function_count(&self) -> (count: usize)
        ensures
            self.functions().dom().finite(),
            count == self.functions().dom().len(),
    {
        let known = self.fingerprints();
        proof {
            known@.unique_seq_to_set();
            vstd::seq_lib::seq_to_set_is_finite(known@);
        }
        known.len()
    }

    /// The type identities that the store has a definition for, each once.
    pub fn type_identities(&self) -> (known: Vec<TypeIdentity>)
        ensures
            known@.no_duplicates(),
            known@.to_set() == self.types().dom(),
    {
        let mut known: Vec<TypeIdentity> = Vec::new();
        let ghost all = type_pairs(self.types@);
        let mut i: usize = 0;
        proof {
            assert(known@.to_set() =~= Set::<TypeIdentity>::empty());
            assert(table_of(all.take(0)).dom() =~= Set::<TypeIdentity>::empty());
        }
        while i < self.types.len()
            invariant
                i <= self.types.len(),
                all == type_pairs(self.types@),
                known@.no_duplicates(),
                known@.to_set() == table_of(all.take(i as int)).dom(),
            decreases self.types.len() - i,
        {
            let id = self.types[i].id;
            proof {
                assert(all.take(i + 1).drop_last() =~= all.take(i as int));
                assert(table_of(all.take(i + 1)).dom() =~= table_of(all.take(i as int)).dom().insert(
                    id,
                ));
            }
            if !identity_listed(&known, id) {
                let ghost before = known@;
                known.push(id);
                proof {
                    before.lemma_push_to_set_commute(id);
                }
            } else {
                proof {
                    assert(known@.to_set().insert(id) =~= known@.to_set());
                }
            }
            i += 1;
        }
        proof {
            assert(all.take(self.types.len() as int) =~= all);
        }
        known
    }

    /// The number of type definitions in the store.
    pub fn type_count(&self) -> (count: usize)
        ensures
            self.types().dom().finite(),
            count == self.types().dom().len(),
    {
        let known = self.type_identities();
        proof {
            known@.unique_seq_to_set();
            vstd::seq_lib::seq_to_set_is_finite(known@);
        }
        known.len()
    }

    /// Merges `other` into the store. Every candidate of either store stays,
    /// each once; a type that both define keeps the definition held before.
    pub fn extend(&mut self, other: SignatureStore)
        ensures
            old(self).merged_with(other, *final(self)),
    {
        let ghost theirs = record_views(other.records@);
        let mut i: usize = 0;
        while i < other.records.len()
            invariant
                i <= other.records.len(),
                theirs == record_views(other.records@),
                self.types() == old(self).types(),
                self.records() == old(self).records().union(theirs.take(i as int).to_set()),
            decreases other.records.len() - i,
        {
            proof {
                lemma_take_next_to_set(theirs, i as int);
            }
            self.add_record(other.records[i].duplicate());
            i += 1;
            proof {
                assert(self.records() =~= old(self).records().union(
                    theirs.take(i as int).to_set(),
                ));
            }
        }
        proof {
            assert(theirs.take(other.records.len() as int) =~= theirs);
        }
        let mut k: usize = 0;
        while k < other.types.len()
            invariant
                k <= other.types.len(),
                self.records() == old(self).records().union(other.records()),
                self.types() == merged_types(
                    old(self).types(),
                    table_of(type_pairs(other.types@).take(k as int)),
                ),
            decreases other.types.len() - k,
        {
            proof {
                let theirs = type_pairs(other.types@);
                assert(theirs.take(k + 1).drop_last() =~= theirs.take(k as int));
            }
            self.add_type(other.types[k].id, other.types[k].definition.duplicate());
            k += 1;
            proof {
                assert(self.types() =~= merged_types(
                    old(self).types(),
                    table_of(type_pairs(other.types@).take(k as int)),
                ));
            }
        }
        proof {
            assert(type_pairs(other.types@).take(other.types.len() as int) =~= type_pairs(
                other.types@,
            ));
        }
    }
}

} // verus!
