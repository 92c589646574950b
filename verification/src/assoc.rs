//! Maps that are kept as lists of pairs.

use vstd::prelude::*;

verus! {

/// The map that these pairs make; of two pairs with one key, the later.
pub open spec fn collect<K, V>(entries: Seq<(K, V)>) -> Map<K, V>
    decreases entries.len(),
{
    if entries.len() == 0 {
        Map::empty()
    } else {
        collect(entries.drop_last()).insert(entries.last().0, entries.last().1)
    }
}

/// No key occurs twice.
pub open spec fn distinct<K, V>(entries: Seq<(K, V)>) -> bool {
    forall|i: int, j: int|
        0 <= i < j < entries.len() ==> (#[trigger] entries[i]).0 != (#[trigger] entries[j]).0
}

pub proof fn lemma_collect_at<K, V>(entries: Seq<(K, V)>, i: int)
    requires
        distinct(entries),
        0 <= i < entries.len(),
    ensures
        collect(entries).contains_key(entries[i].0),
        collect(entries)[entries[i].0] == entries[i].1,
    decreases entries.len(),
{
    if i < entries.len() - 1 {
        assert(entries.drop_last()[i] == entries[i]);
        lemma_collect_at(entries.drop_last(), i);
        assert(entries[i].0 != entries[entries.len() - 1].0);
    }
}

pub proof fn lemma_collect_from<K, V>(entries: Seq<(K, V)>, key: K)
    requires
        collect(entries).contains_key(key),
    ensures
        exists|i: int| 0 <= i < entries.len() && (#[trigger] entries[i]).0 == key,
    decreases entries.len(),
{
    if entries.len() > 0 {
        if entries.last().0 == key {
            assert(entries[entries.len() - 1].0 == key);
        } else {
            lemma_collect_from(entries.drop_last(), key);
            let i = choose|i: int|
                0 <= i < entries.len() - 1 && (#[trigger] entries.drop_last()[i]).0 == key;
            assert(entries[i].0 == key);
        }
    }
}

pub proof fn lemma_collect_len<K, V>(entries: Seq<(K, V)>)
    requires
        distinct(entries),
    ensures
        collect(entries).dom().finite(),
        collect(entries).len() == entries.len(),
    decreases entries.len(),
{
    if entries.len() > 0 {
        lemma_collect_len(entries.drop_last());
        let last = entries.last();
        if collect(entries.drop_last()).contains_key(last.0) {
            lemma_collect_from(entries.drop_last(), last.0);
            let i = choose|i: int|
                0 <= i < entries.len() - 1 && (#[trigger] entries.drop_last()[i]).0 == last.0;
            assert(entries[i].0 == entries[entries.len() - 1].0);
        }
    }
}

/// A pair replaced in its place is the key inserted anew.
pub proof fn lemma_collect_update<K, V>(entries: Seq<(K, V)>, i: int, value: V)
    requires
        distinct(entries),
        0 <= i < entries.len(),
    ensures
        distinct(entries.update(i, (entries[i].0, value))),
        collect(entries.update(i, (entries[i].0, value))) == collect(entries).insert(
            entries[i].0,
            value,
        ),
{
    let updated = entries.update(i, (entries[i].0, value));
    assert(distinct(updated));
    let a = collect(updated);
    let b = collect(entries).insert(entries[i].0, value);
    assert forall|key: K| a.contains_key(key) == b.contains_key(key) by {
        if a.contains_key(key) {
            lemma_collect_from(updated, key);
            let k = choose|k: int| 0 <= k < updated.len() && (#[trigger] updated[k]).0 == key;
            lemma_collect_at(entries, k);
        }
        if collect(entries).contains_key(key) {
            lemma_collect_from(entries, key);
            let k = choose|k: int| 0 <= k < entries.len() && (#[trigger] entries[k]).0 == key;
            lemma_collect_at(updated, k);
        }
        lemma_collect_at(updated, i);
    }
    assert forall|key: K| a.contains_key(key) implies #[trigger] a[key] == b[key] by {
        lemma_collect_from(updated, key);
        let k = choose|k: int| 0 <= k < updated.len() && (#[trigger] updated[k]).0 == key;
        lemma_collect_at(updated, k);
        lemma_collect_at(entries, k);
    }
    assert(a =~= b);
}

/// A pair of a new key at the end is the key inserted.
pub proof fn lemma_collect_push<K, V>(entries: Seq<(K, V)>, key: K, value: V)
    requires
        distinct(entries),
        !collect(entries).contains_key(key),
    ensures
        distinct(entries.push((key, value))),
        collect(entries.push((key, value))) == collect(entries).insert(key, value),
{
    let more = entries.push((key, value));
    assert(more.drop_last() =~= entries);
    assert forall|i: int, j: int| 0 <= i < j < more.len() implies (#[trigger] more[i]).0 != (
    #[trigger] more[j]).0 by {
        if j < entries.len() {
            assert(entries[i].0 != entries[j].0);
        } else {
            lemma_collect_at(entries, i);
        }
    }
}

/// Under a key stands the value of the last pair with that key, and a key that
/// no pair has is not there.
pub proof fn law_last_entry_stands<K, V>(entries: Seq<(K, V)>, i: int)
    requires
        0 <= i < entries.len(),
        forall|j: int| i < j < entries.len() ==> (#[trigger] entries[j]).0 != entries[i].0,
    ensures
        collect(entries).contains_key(entries[i].0),
        collect(entries)[entries[i].0] == entries[i].1,
    decreases entries.len(),
{
    if i < entries.len() - 1 {
        let fewer = entries.drop_last();
        assert(entries[entries.len() - 1].0 != entries[i].0);
        assert(fewer[i] == entries[i]);
        assert forall|j: int| i < j < fewer.len() implies (#[trigger] fewer[j]).0
            != fewer[i].0 by {
            assert(fewer[j] == entries[j]);
        }
        law_last_entry_stands(fewer, i);
    }
}

} // verus!
