//! Grouping by a key, and what it means to keep only the groups that hold
//! duplicates.

use crate::metafile::{MetaFile, MetaFileView};
use std::collections::{HashMap, HashSet};
use std::hash::Hash;
use vstd::prelude::*;
use vstd::std_specs::hash::{obeys_key_model, spec_hash_keys_iter};
use vstd::std_specs::iter::IteratorSpec;

verus! {

broadcast use vstd::std_specs::hash::group_hash_axioms;

/// The values that `items` pairs with the key `k`, in the order of `items`.
pub open spec fn bucket<K, V>(items: Seq<(K, V)>, k: K) -> Seq<V>
    decreases items.len(),
{
    if items.len() == 0 {
        Seq::empty()
    } else if items.last().0 == k {
        bucket(items.drop_last(), k).push(items.last().1)
    } else {
        bucket(items.drop_last(), k)
    }
}

/// The duplicate groups of `items`: each key that at least two items carry,
/// mapped to the values of those items. A key that one item alone carries
/// has no group.
pub open spec fn grouped<K, V>(items: Seq<(K, V)>) -> Map<K, Seq<V>> {
    Map::new(|k: K| bucket(items, k).len() >= 2, |k: K| bucket(items, k))
}

/// Groups of records, each under the key its members share.
pub open spec fn groups_view<K>(m: Map<K, Vec<MetaFile>>) -> Map<K, Seq<MetaFileView>> {
    Map::new(|k: K| m.contains_key(k), |k: K| m[k].deep_view())
}

/// A grouping in the making: it takes keyed records one by one, files each
/// under its key, and notes the keys that came twice.
pub(crate) struct Grouping<K> {
    maybe_dups: HashMap<K, Vec<MetaFile>>,
    dup_keys: HashSet<K>,
    seen: Ghost<Seq<(K, MetaFileView)>>,
}

impl<K: Copy + Eq + Hash> Grouping<K> {
    /// Every keyed record taken so far, in the order taken.
    pub(crate) closed spec fn items(&self) -> Seq<(K, MetaFileView)> {
        self.seen@
    }

    /// Each record taken so far is filed under its key, and the keys noted
    /// are those that two or more records carry.
    pub(crate) closed spec fn wf(&self) -> bool {
        &&& obeys_key_model::<K>()
        &&& forall|k: K| self.maybe_dups@.contains_key(k) <==> bucket(self.seen@, k).len() >= 1
        &&& forall|k: K|
            self.maybe_dups@.contains_key(k) ==> (#[trigger] self.maybe_dups@[k]).deep_view()
                == bucket(self.seen@, k)
        &&& forall|k: K| self.dup_keys@.contains(k) <==> bucket(self.seen@, k).len() >= 2
    }

    pub(crate) fn new() -> (g: Self)
        requires
            obeys_key_model::<K>(),
        ensures
            g.wf(),
            g.items() == Seq::<(K, MetaFileView)>::empty(),
    {
        Grouping { maybe_dups: HashMap::new(), dup_keys: HashSet::new(), seen: Ghost(Seq::empty()) }
    }

    /// Files one record under its key.
    pub(crate) fn add(&mut self, key: K, file: MetaFile)
        requires
            old(self).wf(),
        ensures
            final(self).wf(),
            final(self).items() == old(self).items().push((key, file@)),
    {
        let ghost before = self.seen@;
        proof {
            assert forall|k: K|
                bucket(before.push((key, file@)), k) == if key == k {
                    bucket(before, k).push(file@)
                } else {
                    bucket(before, k)
                } by {
                lemma_bucket_push(before, (key, file@), k);
            }
        }
        match self.maybe_dups.remove(&key) {
            Some(mut group) => {
                group.push(file);
                assert(group.deep_view() =~= bucket(before.push((key, file@)), key));
                self.maybe_dups.insert(key, group);
                self.dup_keys.insert(key);
            },
            None => {
                let mut group = Vec::new();
                group.push(file);
                assert(group.deep_view() =~= bucket(before.push((key, file@)), key));
                self.maybe_dups.insert(key, group);
            },
        }
        self.seen = Ghost(before.push((key, file@)));
    }

    /// The groups of the keys that came twice or more.
    pub(crate) fn finish(self) -> (res: HashMap<K, Vec<MetaFile>>)
        requires
            self.wf(),
        ensures
            groups_view(res@) == grouped(self.items()),
    {
        let ghost items = self.seen@;
        let mut maybe_dups = self.maybe_dups;
        let dup_keys = self.dup_keys;
        let mut res: HashMap<K, Vec<MetaFile>> = HashMap::new();
        let ghost keys = spec_hash_keys_iter(&dup_keys).remaining();
        proof {
            assert forall|j: int| 0 <= j < keys.len() implies dup_keys@.contains(
                *(#[trigger] keys[j]),
            ) by {
                assert(keys.unref().to_set().contains(keys.unref()[j]));
            }
        }
        for dup_key in it: dup_keys.iter()
            invariant
                obeys_key_model::<K>(),
                it.seq() == keys,
                keys.no_duplicates(),
                forall|j: int| 0 <= j < keys.len() ==> dup_keys@.contains(*(#[trigger] keys[j])),
                forall|k: K|
                    dup_keys@.contains(k) ==> exists|j: int|
                        0 <= j < keys.len() && *(#[trigger] keys[j]) == k,
                forall|k: K| dup_keys@.contains(k) <==> bucket(items, k).len() >= 2,
                forall|k: K|
                    res@.contains_key(k) <==> exists|j: int|
                        0 <= j < it.index() && *(#[trigger] keys[j]) == k,
                forall|k: K|
                    res@.contains_key(k) ==> (#[trigger] res@[k]).deep_view() == bucket(items, k),
                forall|k: K|
                    maybe_dups@.contains_key(k) <==> bucket(items, k).len() >= 1
                        && !res@.contains_key(k),
                forall|k: K|
                    maybe_dups@.contains_key(k) ==> (#[trigger] maybe_dups@[k]).deep_view()
                        == bucket(items, k),
        {
            let group = maybe_dups.remove(dup_key).unwrap();
            res.insert(*dup_key, group);
        }
        assert forall|k: K| res@.contains_key(k) <==> bucket(items, k).len() >= 2 by {
            if bucket(items, k).len() >= 2 {
                assert(dup_keys@.contains(k));
            }
        }
        res
    }
}

/// Appending an item extends the bucket of its key and no other.
pub proof fn lemma_bucket_push<K, V>(items: Seq<(K, V)>, item: (K, V), k: K)
    ensures
        bucket(items.push(item), k) == if item.0 == k {
            bucket(items, k).push(item.1)
        } else {
            bucket(items, k)
        },
{
    assert(items.push(item).drop_last() =~= items);
}

/// A bucket holds exactly the values of the items that carry its key.
pub proof fn lemma_bucket_members<K, V>(items: Seq<(K, V)>, k: K)
    ensures
        forall|i: int| 0 <= i < items.len() && (#[trigger] items[i]).0 == k ==> bucket(
            items,
            k,
        ).contains(items[i].1),
        forall|v: V| #[trigger]
            bucket(items, k).contains(v) ==> exists|i: int|
                0 <= i < items.len() && #[trigger] items[i] == (k, v),
        bucket(items, k).len() <= items.len(),
    decreases items.len(),
{
    if items.len() > 0 {
        let init = items.drop_last();
        lemma_bucket_members(init, k);
        assert forall|i: int| 0 <= i < items.len() && (#[trigger] items[i]).0 == k implies bucket(
            items,
            k,
        ).contains(items[i].1) by {
            if i < init.len() {
                assert(init[i] == items[i]);
                let j = choose|j: int|
                    0 <= j < bucket(init, k).len() && bucket(init, k)[j] == items[i].1;
                assert(bucket(items, k)[j] == items[i].1);
            } else {
                assert(bucket(items, k).last() == items[i].1);
            }
        }
        assert forall|v: V| #[trigger] bucket(items, k).contains(v) implies exists|i: int|
            0 <= i < items.len() && #[trigger] items[i] == (k, v) by {
            let j = choose|j: int| 0 <= j < bucket(items, k).len() && bucket(items, k)[j] == v;
            if j < bucket(init, k).len() {
                assert(bucket(init, k).contains(v));
            }
        }
    }
}

/// A bucket of two or more values stems from two different items.
pub proof fn lemma_bucket_two<K, V>(items: Seq<(K, V)>, k: K)
    requires
        bucket(items, k).len() >= 2,
    ensures
        exists|i: int, j: int|
            0 <= i < j < items.len() && (#[trigger] items[i]).0 == k && (#[trigger] items[j]).0
                == k,
    decreases items.len(),
{
    let init = items.drop_last();
    let last = items.len() - 1;
    if items[last].0 == k && bucket(init, k).len() < 2 {
        lemma_bucket_members(init, k);
        let v = bucket(init, k)[0];
        assert(bucket(init, k).contains(v));
    } else {
        lemma_bucket_two(init, k);
    }
}

/// Two different items with one key put that key's bucket at two values or
/// more.
pub proof fn lemma_bucket_pair<K, V>(items: Seq<(K, V)>, i: int, j: int)
    requires
        0 <= i < j < items.len(),
        items[i].0 == items[j].0,
    ensures
        bucket(items, items[i].0).len() >= 2,
    decreases items.len(),
{
    let k = items[i].0;
    let init = items.drop_last();
    if j == items.len() - 1 {
        lemma_bucket_members(init, k);
    } else {
        lemma_bucket_pair(init, i, j);
    }
}

/// Two different items that share a key are members of one duplicate group,
/// the group of that key.
pub proof fn lemma_shared_key_grouped<K, V>(items: Seq<(K, V)>, i: int, j: int)
    requires
        0 <= i < items.len(),
        0 <= j < items.len(),
        i != j,
        items[i].0 == items[j].0,
    ensures
        grouped(items).contains_key(items[i].0),
        grouped(items)[items[i].0].contains(items[i].1),
        grouped(items)[items[i].0].contains(items[j].1),
{
    if i < j {
        lemma_bucket_pair(items, i, j);
    } else {
        lemma_bucket_pair(items, j, i);
    }
    lemma_bucket_members(items, items[i].0);
}

/// An item whose key no other item carries is in no duplicate group, and no
/// duplicate group has its key.
pub proof fn lemma_lone_key_dropped<K, V>(items: Seq<(K, V)>, i: int)
    requires
        0 <= i < items.len(),
        forall|j: int| 0 <= j < items.len() && j != i ==> (#[trigger] items[j]).0 != items[i].0,
    ensures
        !grouped(items).contains_key(items[i].0),
        forall|k: K, v: V|
            grouped(items).contains_key(k) && #[trigger] grouped(items)[k].contains(v)
                ==> exists|j: int| 0 <= j < items.len() && j != i && #[trigger] items[j] == (k, v),
{
    if bucket(items, items[i].0).len() >= 2 {
        lemma_bucket_two(items, items[i].0);
    }
    assert forall|k: K, v: V|
        grouped(items).contains_key(k) && #[trigger] grouped(items)[k].contains(
            v,
        ) implies exists|j: int|
        0 <= j < items.len() && j != i && #[trigger] items[j] == (k, v) by {
        lemma_bucket_members(items, k);
    }
}

/// The members of a concatenation of groups are the members of the groups.
pub proof fn lemma_flatten_members<T>(groups: Seq<Seq<T>>)
    ensures
        forall|g: int, i: int|
            0 <= g < groups.len() && 0 <= i < groups[g].len() ==> groups.flatten().contains(
                #[trigger] groups[g][i],
            ),
        forall|x: T| #[trigger]
            groups.flatten().contains(x) ==> exists|g: int, i: int|
                0 <= g < groups.len() && 0 <= i < groups[g].len() && #[trigger] groups[g][i] == x,
    decreases groups.len(),
{
    groups.lemma_flatten_and_flatten_alt_are_equivalent();
    if groups.len() > 0 {
        let init = groups.drop_last();
        lemma_flatten_members(init);
        init.lemma_flatten_and_flatten_alt_are_equivalent();
        let flat = groups.flatten();
        assert forall|g: int, i: int|
            0 <= g < groups.len() && 0 <= i < groups[g].len() implies flat.contains(
            #[trigger] groups[g][i],
        ) by {
            if g < init.len() {
                assert(init.flatten().contains(init[g][i]));
                let m = choose|m: int|
                    0 <= m < init.flatten().len() && init.flatten()[m] == groups[g][i];
                assert(flat[m] == groups[g][i]);
            } else {
                assert(flat[init.flatten().len() + i] == groups[g][i]);
            }
        }
        assert forall|x: T| #[trigger] flat.contains(x) implies exists|g: int, i: int|
            0 <= g < groups.len() && 0 <= i < groups[g].len() && #[trigger] groups[g][i] == x by {
            let m = choose|m: int| 0 <= m < flat.len() && flat[m] == x;
            if m < init.flatten().len() {
                assert(init.flatten().contains(x));
            }
        }
    }
}

} // verus!
