//! Routing by collection.
//!
//! A batch is split into one group per distinct collection name. Groups come
//! in the order in which their names first occur in the batch, and inside a
//! group the items keep the order in which they were given.

use vstd::multiset::Multiset;
use vstd::prelude::*;

verus! {

/// The distinct keys of `keys`, each at the place of its first occurrence.
pub open spec fn keys_in_order<K>(keys: Seq<K>) -> Seq<K>
    decreases keys.len(),
{
    if keys.len() == 0 {
        Seq::empty()
    } else {
        let earlier = keys_in_order(keys.drop_last());
        if earlier.contains(keys.last()) {
            earlier
        } else {
            earlier.push(keys.last())
        }
    }
}

/// The keys of a keyed batch, item by item.
pub open spec fn keys_of<K, V>(items: Seq<(K, V)>) -> Seq<K> {
    items.map_values(|item: (K, V)| item.0)
}

/// The values of a keyed batch, item by item.
pub open spec fn values_of<K, V>(items: Seq<(K, V)>) -> Seq<V> {
    items.map_values(|item: (K, V)| item.1)
}

/// The test "is filed under `key`".
pub open spec fn under<K, V>(key: K) -> spec_fn((K, V)) -> bool {
    |item: (K, V)| item.0 == key
}

/// The values filed under `key`, in the order in which they were given.
pub open spec fn members<K, V>(items: Seq<(K, V)>, key: K) -> Seq<V> {
    values_of(items.filter(under(key)))
}

/// A keyed batch split by key: one group per distinct key, in the order of
/// first occurrence, each holding its members in the order given.
pub open spec fn grouped<K, V>(items: Seq<(K, V)>) -> Seq<(K, Seq<V>)> {
    let keys = keys_in_order(keys_of(items));
    Seq::new(keys.len(), |g: int| (keys[g], members(items, keys[g])))
}

/// A batch of named items, keyed by the characters of each name.
pub open spec fn keyed<V>(items: Seq<(String, V)>) -> Seq<(Seq<char>, V)> {
    items.map_values(|item: (String, V)| (item.0@, item.1))
}

/// The groups of a vector, each as its name's characters and a sequence.
pub open spec fn groups_view<V>(groups: Seq<(String, Vec<V>)>) -> Seq<(Seq<char>, Seq<V>)> {
    groups.map_values(|group: (String, Vec<V>)| (group.0@, group.1@))
}

/// A key is among the distinct keys exactly if it occurs at all.
pub proof fn lemma_keys_in_order_contains<K>(keys: Seq<K>, key: K)
    ensures
        keys_in_order(keys).contains(key) <==> keys.contains(key),
    decreases keys.len(),
{
    if keys.len() > 0 {
        let earlier = keys.drop_last();
        lemma_keys_in_order_contains(earlier, key);
        lemma_keys_in_order_contains(earlier, keys.last());
        let distinct = keys_in_order(earlier);
        if keys.contains(key) {
            let i = choose|i: int| 0 <= i < keys.len() && keys[i] == key;
            if i < keys.len() - 1 {
                assert(earlier[i] == key);
            }
        }
        if keys_in_order(keys).contains(key) {
            let j = choose|j: int| 0 <= j < keys_in_order(keys).len() && keys_in_order(keys)[j] == key;
            if j < distinct.len() {
                assert(distinct[j] == key);
                let i = choose|i: int| 0 <= i < earlier.len() && earlier[i] == key;
                assert(keys[i] == key);
            } else {
                assert(keys[keys.len() - 1] == key);
            }
        } else if keys.contains(key) {
            if distinct.contains(keys.last()) {
                assert(keys_in_order(keys) == distinct);
            } else {
                assert(forall|j: int| 0 <= j < distinct.len() ==> keys_in_order(keys)[j] == distinct[j]);
                assert(keys_in_order(keys)[distinct.len() as int] == keys.last());
                if key == keys.last() {
                    assert(keys_in_order(keys).contains(key));
                } else {
                    let j = choose|j: int| 0 <= j < distinct.len() && distinct[j] == key;
                    assert(keys_in_order(keys)[j] == key);
                }
            }
        }
    }
}

/// No key occurs twice among the distinct keys.
pub proof fn lemma_keys_in_order_distinct<K>(keys: Seq<K>)
    ensures
        keys_in_order(keys).no_duplicates(),
    decreases keys.len(),
{
    if keys.len() > 0 {
        lemma_keys_in_order_distinct(keys.drop_last());
    }
}

/// What one more item does to the distinct keys and to each key's members.
proof fn lemma_grouping_step<K, V>(items: Seq<(K, V)>, key: K, value: V)
    ensures
        keys_in_order(keys_of(items.push((key, value)))) == if keys_of(items).contains(key) {
            keys_in_order(keys_of(items))
        } else {
            keys_in_order(keys_of(items)).push(key)
        },
        members(items.push((key, value)), key) == members(items, key).push(value),
        forall|other: K|
            other != key ==> #[trigger] members(items.push((key, value)), other) == members(
                items,
                other,
            ),
{
    let longer = items.push((key, value));
    assert(keys_of(longer).drop_last() =~= keys_of(items));
    assert(keys_of(longer).last() == key);
    lemma_keys_in_order_contains(keys_of(items), key);
    items.lemma_filter_push((key, value), under(key));
    assert(members(longer, key) =~= members(items, key).push(value));
    assert forall|other: K| other != key implies #[trigger] members(longer, other) == members(
        items,
        other,
    ) by {
        items.lemma_filter_push((key, value), under(other));
    }
}

/// Nothing is filed under a key that does not occur.
proof fn lemma_members_of_absent_key<K, V>(items: Seq<(K, V)>, key: K)
    requires
        !keys_of(items).contains(key),
    ensures
        members(items, key) == Seq::<V>::empty(),
    decreases items.len(),
{
    if items.len() > 0 {
        let earlier = items.drop_last();
        assert(keys_of(items)[items.len() - 1] == items.last().0);
        assert forall|i: int| 0 <= i < earlier.len() implies keys_of(earlier)[i] != key by {
            assert(keys_of(items)[i] == earlier[i].0);
        }
        lemma_members_of_absent_key(earlier, key);
        assert(earlier.push(items.last()) =~= items);
        lemma_grouping_step(earlier, items.last().0, items.last().1);
    } else {
        reveal(Seq::filter);
    }
}

/// Every member of every group, gathered into one multiset.
pub open spec fn gathered<K, V>(groups: Seq<(K, Seq<V>)>) -> Multiset<V>
    decreases groups.len(),
{
    if groups.len() == 0 {
        Multiset::empty()
    } else {
        gathered(groups.drop_last()).add(groups.last().1.to_multiset())
    }
}

/// A batch without items holds nothing.
proof fn lemma_nothing_in_empty<V>()
    ensures
        Seq::<V>::empty().to_multiset() == Multiset::<V>::empty(),
{
    let none = Seq::<V>::empty();
    none.to_multiset_ensures();
    assert forall|value: V| none.to_multiset().count(value) == 0 by {
        assert(!none.contains(value));
    }
    assert(none.to_multiset() =~= Multiset::<V>::empty());
}

/// One more member in one group is one more member gathered.
proof fn lemma_gathered_after_member<K, V>(groups: Seq<(K, Seq<V>)>, g: int, value: V)
    requires
        0 <= g < groups.len(),
    ensures
        gathered(groups.update(g, (groups[g].0, groups[g].1.push(value)))) == gathered(
            groups,
        ).insert(value),
    decreases groups.len(),
{
    broadcast use vstd::seq_lib::to_multiset_build;

    let after = groups.update(g, (groups[g].0, groups[g].1.push(value)));
    if g == groups.len() - 1 {
        assert(after.drop_last() =~= groups.drop_last());
        assert(gathered(after) =~= gathered(groups).insert(value));
    } else {
        lemma_gathered_after_member(groups.drop_last(), g, value);
        assert(after.drop_last() =~= groups.drop_last().update(
            g,
            (groups[g].0, groups[g].1.push(value)),
        ));
        assert(gathered(after) =~= gathered(groups).insert(value));
    }
}

/// Grouping neither loses nor invents an item: the groups together hold
/// exactly the values of the batch, each as often as it was given.
pub proof fn lemma_grouping_keeps_everything<K, V>(items: Seq<(K, V)>)
    ensures
        gathered(grouped(items)) == values_of(items).to_multiset(),
    decreases items.len(),
{
    broadcast use vstd::seq_lib::to_multiset_build;

    if items.len() == 0 {
        assert(keys_of(items) =~= Seq::<K>::empty());
        assert(grouped(items) =~= Seq::<(K, Seq<V>)>::empty());
        assert(values_of(items) =~= Seq::<V>::empty());
        lemma_nothing_in_empty::<V>();
    } else {
        let earlier = items.drop_last();
        let key = items.last().0;
        let value = items.last().1;
        assert(earlier.push((key, value)) =~= items);
        lemma_grouping_keeps_everything(earlier);
        lemma_grouping_step(earlier, key, value);
        lemma_keys_in_order_contains(keys_of(earlier), key);
        lemma_keys_in_order_distinct(keys_of(earlier));
        assert(values_of(items) =~= values_of(earlier).push(value));
        let names = keys_in_order(keys_of(earlier));
        if keys_of(earlier).contains(key) {
            let g = choose|g: int| 0 <= g < names.len() && names[g] == key;
            assert(grouped(items) =~= grouped(earlier).update(
                g,
                (key, members(earlier, key).push(value)),
            ));
            lemma_gathered_after_member(grouped(earlier), g, value);
        } else {
            lemma_members_of_absent_key(earlier, key);
            assert(grouped(items) =~= grouped(earlier).push((key, Seq::<V>::empty().push(value))));
            assert(grouped(items).drop_last() =~= grouped(earlier));
            lemma_nothing_in_empty::<V>();
            assert(gathered(grouped(items)) =~= gathered(grouped(earlier)).insert(value));
        }
    }
}

/// Grouping by collection partitions a batch exactly.
///
/// No two groups carry the same key; every item's key names a group (hence
/// exactly one); each group holds the items given under its key and only
/// those, in the order given, and is not empty; and the groups together
/// hold what the batch held, nothing more and nothing less.
pub proof fn lemma_grouping_partitions<K, V>(items: Seq<(K, V)>)
    ensures
        forall|g: int, h: int|
            0 <= g < h < grouped(items).len() ==> (#[trigger] grouped(items)[g]).0 != (
            #[trigger] grouped(items)[h]).0,
        forall|i: int|
            0 <= i < items.len() ==> exists|g: int|
                0 <= g < grouped(items).len() && (#[trigger] grouped(items)[g]).0 == (
                #[trigger] items[i]).0,
        forall|g: int|
            0 <= g < grouped(items).len() ==> (#[trigger] grouped(items)[g]).1 == values_of(
                items.filter(under(grouped(items)[g].0)),
            ),
        forall|g: int| 0 <= g < grouped(items).len() ==> (#[trigger] grouped(items)[g]).1.len() > 0,
        gathered(grouped(items)) == values_of(items).to_multiset(),
{
    let names = keys_in_order(keys_of(items));
    lemma_keys_in_order_distinct(keys_of(items));
    lemma_grouping_keeps_everything(items);
    assert forall|i: int| 0 <= i < items.len() implies exists|g: int|
        0 <= g < grouped(items).len() && (#[trigger] grouped(items)[g]).0 == (
        #[trigger] items[i]).0 by {
        assert(keys_of(items)[i] == items[i].0);
        lemma_keys_in_order_contains(keys_of(items), items[i].0);
        let g = choose|g: int| 0 <= g < names.len() && names[g] == items[i].0;
        assert(grouped(items)[g].0 == items[i].0);
    }
    assert forall|g: int| 0 <= g < grouped(items).len() implies (#[trigger] grouped(
        items,
    )[g]).1.len() > 0 by {
        let key = names[g];
        lemma_keys_in_order_contains(keys_of(items), key);
        let i = choose|i: int| 0 <= i < keys_of(items).len() && keys_of(items)[i] == key;
        items.lemma_filter_contains(under(key), i);
    }
}

/// Among entries with pairwise different keys, at most one carries `key`.
pub proof fn lemma_distinct_keys_count<K, W>(entries: Seq<(K, W)>, key: K)
    requires
        forall|g: int, h: int|
            0 <= g < h < entries.len() ==> (#[trigger] entries[g]).0 != (#[trigger] entries[h]).0,
    ensures
        entries.filter(under(key)).len() == if exists|g: int|
            0 <= g < entries.len() && (#[trigger] entries[g]).0 == key {
            1nat
        } else {
            0nat
        },
    decreases entries.len(),
{
    let named = under::<K, W>(key);
    if entries.len() == 0 {
        reveal(Seq::filter);
    } else {
        let earlier = entries.drop_last();
        let last = entries.last();
        assert(earlier.push(last) =~= entries);
        earlier.lemma_filter_push(last, named);
        assert forall|g: int, h: int| 0 <= g < h < earlier.len() implies (#[trigger] earlier[g]).0
            != (#[trigger] earlier[h]).0 by {
            assert(entries[g].0 != entries[h].0);
        }
        lemma_distinct_keys_count(earlier, key);
        if exists|g: int| 0 <= g < earlier.len() && (#[trigger] earlier[g]).0 == key {
            let g = choose|g: int| 0 <= g < earlier.len() && (#[trigger] earlier[g]).0 == key;
            assert(entries[g].0 == key);
            assert(entries[g].0 != entries[entries.len() - 1].0);
        } else if last.0 == key {
            assert(entries[entries.len() - 1].0 == key);
        } else {
            assert forall|g: int| 0 <= g < entries.len() implies (#[trigger] entries[g]).0
                != key by {
                if g < earlier.len() {
                    assert(earlier[g].0 != key);
                }
            }
        }
    }
}

/// However many items a batch holds for a key, they make one group: the
/// number of groups carrying `key` is one if the key occurs in the batch
/// and zero if it does not.
pub proof fn lemma_one_group_per_key<K, V>(items: Seq<(K, V)>, key: K)
    ensures
        grouped(items).filter(under(key)).len() == if keys_of(items).contains(key) {
            1nat
        } else {
            0nat
        },
{
    let groups = grouped(items);
    let names = keys_in_order(keys_of(items));
    lemma_keys_in_order_distinct(keys_of(items));
    lemma_keys_in_order_contains(keys_of(items), key);
    lemma_distinct_keys_count(groups, key);
    if keys_of(items).contains(key) {
        let g = choose|g: int| 0 <= g < names.len() && names[g] == key;
        assert(groups[g].0 == key);
    } else {
        assert forall|g: int| 0 <= g < groups.len() implies (#[trigger] groups[g]).0 != key by {
            assert(names[g] == groups[g].0);
        }
    }
}

/// The place of the group named `key`, if there is one.
fn find_group<V>(groups: &Vec<(String, Vec<V>)>, key: &String) -> (found: Option<usize>)
    ensures
        match found {
            Some(g) => g < groups.len() && groups[g as int].0@ == key@,
            None => forall|g: int| 0 <= g < groups.len() ==> groups[g].0@ != key@,
        },
{
    let mut g: usize = 0;
    while g < groups.len()
        invariant
            g <= groups.len(),
            forall|h: int| 0 <= h < g ==> groups[h].0@ != key@,
        decreases groups.len() - g,
    {
        if groups[g].0 == *key {
            return Some(g);
        }
        g = g + 1;
    }
    None
}

/// Splits a batch of named items into one group per distinct name.
///
/// Groups appear in the order in which their names first occur; each group
/// holds exactly the items given under its name, in the order given.
pub fn group_pairs<V>(items: Vec<(String, V)>) -> (groups: Vec<(String, Vec<V>)>)
    ensures
        groups_view(groups@) == grouped(keyed(items@)),
{
    let mut groups: Vec<(String, Vec<V>)> = Vec::new();
    let ghost all = items@;
    for item in it: items
        invariant
            it.seq() == all,
            groups.len() == keys_in_order(keys_of(keyed(all.take(it.index() as int)))).len(),
            forall|g: int|
                0 <= g < groups.len() ==> {
                    &&& (#[trigger] groups[g]).0@ == keys_in_order(
                        keys_of(keyed(all.take(it.index() as int))),
                    )[g]
                    &&& groups[g].1@ == members(keyed(all.take(it.index() as int)), groups[g].0@)
                },
    {
        let ghost seen = keyed(all.take(it.index() as int));
        let ghost names = keys_in_order(keys_of(seen));
        let (key, value) = item;
        proof {
            assert(keyed(all.take(it.index() + 1)) =~= seen.push((key@, value)));
            lemma_grouping_step(seen, key@, value);
            lemma_keys_in_order_contains(keys_of(seen), key@);
            lemma_keys_in_order_distinct(keys_of(seen));
        }
        match find_group(&groups, &key) {
            Some(g) => {
                assert(names[g as int] == key@);
                assert(names.contains(key@));
                groups[g].1.push(value);
            },
            None => {
                proof {
                    if names.contains(key@) {
                        let h = choose|h: int| 0 <= h < names.len() && names[h] == key@;
                        assert(groups[h].0@ == key@);
                    }
                    lemma_members_of_absent_key(seen, key@);
                }
                let mut first: Vec<V> = Vec::new();
                first.push(value);
                groups.push((key, first));
            },
        }
    }
    proof {
        assert(all.take(all.len() as int) =~= all);
        assert(groups_view(groups@) =~= grouped(keyed(all)));
    }
    groups
}

} // verus!
