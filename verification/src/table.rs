//! Lists of key and value pairs read as tables in which, for each key, the
//! first pair that carries it counts.

use vstd::prelude::*;

verus! {

/// The table after a value is offered under `key`: it is taken only where
/// the table has none under that key.
pub open spec fn offered<K, V>(table: Map<K, V>, key: K, value: V) -> Map<K, V> {
    if table.contains_key(key) {
        table
    } else {
        table.insert(key, value)
    }
}

/// The table that a list of pairs forms when each pair is offered in turn.
pub open spec fn table_of<K, V>(pairs: Seq<(K, V)>) -> Map<K, V>
    decreases pairs.len(),
{
    if pairs.len() == 0 {
        Map::empty()
    } else {
        offered(table_of(pairs.drop_last()), pairs.last().0, pairs.last().1)
    }
}

/// A key that no pair carries is not in the table.
pub proof fn lemma_table_absent<K, V>(pairs: Seq<(K, V)>, key: K)
    requires
        forall|j: int| 0 <= j < pairs.len() ==> pairs[j].0 != key,
    ensures
        !table_of(pairs).contains_key(key),
    decreases pairs.len(),
{
    if pairs.len() > 0 {
        lemma_table_absent(pairs.drop_last(), key);
    }
}

/// The table gives each key the value of the first pair that carries it.
pub proof fn lemma_table_first<K, V>(pairs: Seq<(K, V)>, i: int)
    requires
        0 <= i < pairs.len(),
        forall|j: int| 0 <= j < i ==> pairs[j].0 != pairs[i].0,
    ensures
        table_of(pairs).contains_key(pairs[i].0),
        table_of(pairs)[pairs[i].0] == pairs[i].1,
    decreases pairs.len(),
{
    if i == pairs.len() - 1 {
        lemma_table_absent(pairs.drop_last(), pairs[i].0);
    } else {
        lemma_table_first(pairs.drop_last(), i);
    }
}

/// Appending a pair offers its value under its key.
pub proof fn lemma_table_push<K, V>(pairs: Seq<(K, V)>, key: K, value: V)
    ensures
        table_of(pairs.push((key, value))) == offered(table_of(pairs), key, value),
{
    assert(pairs.push((key, value)).drop_last() =~= pairs);
}

/// Replacing the value of the first pair under a key replaces the value
/// that the table holds under it, and nothing else.
pub proof fn lemma_table_replace<K, V>(pairs: Seq<(K, V)>, i: int, value: V)
    requires
        0 <= i < pairs.len(),
        forall|j: int| 0 <= j < i ==> pairs[j].0 != pairs[i].0,
    ensures
        table_of(pairs.update(i, (pairs[i].0, value))) == table_of(pairs).insert(
            pairs[i].0,
            value,
        ),
    decreases pairs.len(),
{
    let key = pairs[i].0;
    let changed = pairs.update(i, (key, value));
    let earlier = pairs.drop_last();
    if i == pairs.len() - 1 {
        lemma_table_absent(earlier, key);
        assert(changed.drop_last() =~= earlier);
        assert(table_of(changed) =~= table_of(pairs).insert(key, value));
    } else {
        lemma_table_replace(earlier, i, value);
        lemma_table_first(earlier, i);
        assert(changed.drop_last() =~= earlier.update(i, (key, value)));
        assert(changed.last() == pairs.last());
        assert(table_of(changed) =~= table_of(pairs).insert(key, value));
    }
}

/// Taking a pair out of the list leaves the table as it was under every
/// other key.
pub proof fn lemma_table_remove<K, V>(pairs: Seq<(K, V)>, i: int, key: K)
    requires
        0 <= i < pairs.len(),
        pairs[i].0 != key,
    ensures
        table_of(pairs.remove(i)).contains_key(key) == table_of(pairs).contains_key(key),
        table_of(pairs.remove(i)).contains_key(key) ==> table_of(pairs.remove(i))[key]
            == table_of(pairs)[key],
    decreases pairs.len(),
{
    let fewer = pairs.remove(i);
    if i == pairs.len() - 1 {
        assert(fewer =~= pairs.drop_last());
    } else {
        lemma_table_remove(pairs.drop_last(), i, key);
        assert(fewer.drop_last() =~= pairs.drop_last().remove(i));
        assert(fewer.last() == pairs.last());
    }
}

} // verus!
