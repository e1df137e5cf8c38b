//! Insertion-ordered collections.

use crate::position::FieldKey;
use apollo_compiler::collections::IndexSet;
use vstd::prelude::*;

verus! {

/// `indexmap::IndexSet`.
#[verifier::external_type_specification]
#[verifier::external_body]
#[verifier::reject_recursive_types(T)]
#[verifier::reject_recursive_types(S)]
pub struct ExIndexSet<T, S>(indexmap::IndexSet<T, S>);

/// `indexmap::IndexMap`.
#[verifier::external_type_specification]
#[verifier::external_body]
#[verifier::reject_recursive_types(K)]
#[verifier::reject_recursive_types(V)]
#[verifier::reject_recursive_types(S)]
pub struct ExIndexMap<K, V, S>(indexmap::IndexMap<K, V, S>);

/// The hasher of the collections.
#[verifier::external_type_specification]
#[verifier::external_body]
pub struct ExRandomState(ahash::RandomState);

/// The items of a set of field positions, in the order in which they were added.
pub uninterp spec fn set_items(set: IndexSet<(u8, String, String)>) -> Seq<
    (u8, Seq<char>, Seq<char>),
>;

/// The key of a stored item.
pub open spec fn item_key(item: (u8, String, String)) -> FieldKey {
    (item.0, item.1@, item.2@)
}

/// The keys of the stored items.
pub open spec fn item_keys(items: Seq<(u8, String, String)>) -> Seq<FieldKey> {
    items.map_values(|item: (u8, String, String)| item_key(item))
}

/// The items once `key` is among them: unchanged if it was, otherwise with `key` added last.
pub open spec fn with_item(items: Seq<FieldKey>, key: FieldKey) -> Seq<FieldKey> {
    if items.contains(key) {
        items
    } else {
        items.push(key)
    }
}

/// The items once `keys` were added one after the other.
pub open spec fn with_items(items: Seq<FieldKey>, keys: Seq<FieldKey>) -> Seq<FieldKey>
    decreases keys.len(),
{
    if keys.len() == 0 {
        items
    } else {
        with_item(with_items(items, keys.drop_last()), keys.last())
    }
}

/// `IndexSet::default`: the set is empty.
#[verifier::external_body]
pub(crate) fn empty_set() -> (set: IndexSet<(u8, String, String)>)
    ensures
        set_items(set) == Seq::<FieldKey>::empty(),
{
    IndexSet::default()
}

/// `IndexSet::insert`: an item that the set has stays where it is; another is added last. The
/// result tells whether the item was added.
#[verifier::external_body]
pub(crate) fn insert(set: &mut IndexSet<(u8, String, String)>, item: (u8, String, String)) -> (added:
    bool)
    ensures
        set_items(*final(set)) == with_item(set_items(*old(set)), item_key(item)),
        added == !set_items(*old(set)).contains(item_key(item)),
{
    set.insert(item)
}

/// `IndexSet::extend`: the items are inserted one after the other.
#[verifier::external_body]
pub(crate) fn extend(set: &mut IndexSet<(u8, String, String)>, items: Vec<(u8, String, String)>)
    ensures
        set_items(*final(set)) == with_items(set_items(*old(set)), item_keys(items@)),
{
    set.extend(items)
}

/// `IndexSet::contains`: whether the set has the item.
#[verifier::external_body]
pub(crate) fn contains(set: &IndexSet<(u8, String, String)>, item: &(u8, String, String)) -> (found:
    bool)
    ensures
        found == set_items(*set).contains(item_key(*item)),
{
    set.contains(item)
}

/// `IndexSet::clone`: a set with the same items in the same order.
#[verifier::external_body]
pub(crate) fn copy(set: &IndexSet<(u8, String, String)>) -> (copied: IndexSet<(u8, String, String)>)
    ensures
        set_items(copied) == set_items(*set),
{
    set.clone()
}

/// A set that was filled has what it had before and what was added, and nothing else; and it has
/// nothing twice if it did not before.
pub proof fn law_filled_set(items: Seq<FieldKey>, keys: Seq<FieldKey>)
    ensures
        forall|key: FieldKey|
            #[trigger] with_items(items, keys).contains(key) <==> items.contains(key)
                || keys.contains(key),
        items.no_duplicates() ==> with_items(items, keys).no_duplicates(),
    decreases keys.len(),
{
    if keys.len() > 0 {
        let before = with_items(items, keys.drop_last());
        let last = keys.last();
        law_filled_set(items, keys.drop_last());
        assert forall|key: FieldKey| #[trigger]
            with_items(items, keys).contains(key) <==> items.contains(key) || keys.contains(
            key,
        ) by {
            assert(keys =~= keys.drop_last().push(last));
            assert(keys.drop_last().push(last).contains(key) <==> keys.drop_last().contains(key)
                || key == last) by {
                let pushed = keys.drop_last().push(last);
                assert(pushed[pushed.len() - 1] == last);
                if keys.drop_last().contains(key) {
                    let i = choose|i: int|
                        0 <= i < keys.drop_last().len() && keys.drop_last()[i] == key;
                    assert(pushed[i] == key);
                }
            }
            if !before.contains(last) {
                let pushed = before.push(last);
                assert(pushed[pushed.len() - 1] == last);
                if before.contains(key) {
                    let i = choose|i: int| 0 <= i < before.len() && before[i] == key;
                    assert(pushed[i] == key);
                }
            }
        }
    }
}

/// Filling a set in two steps is filling it in one.
pub proof fn law_filled_in_steps(items: Seq<FieldKey>, first: Seq<FieldKey>, second: Seq<FieldKey>)
    ensures
        with_items(with_items(items, first), second) == with_items(items, first + second),
    decreases second.len(),
{
    if second.len() == 0 {
        assert(first + second =~= first);
    } else {
        law_filled_in_steps(items, first, second.drop_last());
        assert((first + second).drop_last() =~= first + second.drop_last());
    }
}

/// The key of a stored item holds the item's number and the texts of its names.
pub proof fn law_keys_of_items(items: Seq<(u8, String, String)>, i: int)
    requires
        0 <= i < items.len(),
    ensures
        item_keys(items).len() == items.len(),
        item_keys(items)[i] == (items[i].0, items[i].1@, items[i].2@),
        item_key(items[i]) == (items[i].0, items[i].1@, items[i].2@),
{
}

/// A filled set has the keys in the order in which each was first added: `places[n]` is the index of
/// the first addition of the key at `n`, and these indices grow. Every key that was added is there.
pub proof fn law_filled_in_order(keys: Seq<FieldKey>) -> (places: Seq<int>)
    ensures
        places.len() == with_items(Seq::empty(), keys).len(),
        forall|n: int|
            0 <= n < places.len() ==> {
                &&& 0 <= #[trigger] places[n] < keys.len()
                &&& keys[places[n]] == with_items(Seq::empty(), keys)[n]
                &&& forall|j: int| 0 <= j < places[n] ==> #[trigger] keys[j] != keys[places[n]]
            },
        forall|n: int, m: int|
            #![trigger places[n], places[m]]
            0 <= n < m < places.len() ==> places[n] < places[m],
        forall|i: int|
            0 <= i < keys.len() ==> with_items(Seq::empty(), keys).contains(#[trigger] keys[i]),
    decreases keys.len(),
{
    if keys.len() == 0 {
        Seq::empty()
    } else {
        let before = keys.drop_last();
        let last = keys.len() - 1;
        let filled = with_items(Seq::empty(), before);
        let all = with_items(Seq::empty(), keys);
        let places = law_filled_in_order(before);
        law_filled_set(Seq::empty(), before);
        law_filled_set(Seq::empty(), keys);
        assert forall|n: int| 0 <= n < places.len() implies {
            &&& 0 <= #[trigger] places[n] < last
            &&& keys[places[n]] == filled[n]
            &&& forall|j: int| 0 <= j < places[n] ==> #[trigger] keys[j] != keys[places[n]]
        } by {
            assert forall|j: int| 0 <= j < places[n] implies #[trigger] keys[j]
                != keys[places[n]] by {
                assert(before[j] != before[places[n]]);
            }
        }
        assert forall|i: int| 0 <= i < keys.len() implies all.contains(#[trigger] keys[i]) by {
            assert(keys.contains(keys[i]));
        }
        if filled.contains(keys.last()) {
            places
        } else {
            assert forall|j: int| 0 <= j < last implies #[trigger] keys[j] != keys[last] by {
                assert(before.contains(before[j]));
            }
            places.push(last)
        }
    }
}

/// A set that is filled with those keys that pass a test has them in the order in which each was first
/// among the keys: `places[n]` is the index of the first occurrence of the key at `n`, and these
/// indices grow. The set has every key that passes, and no other.
pub proof fn law_filtered_in_order(keys: Seq<FieldKey>, pass: spec_fn(FieldKey) -> bool) -> (places:
    Seq<int>)
    ensures
        places.len() == with_items(Seq::empty(), keys.filter(pass)).len(),
        forall|n: int|
            0 <= n < places.len() ==> {
                &&& 0 <= #[trigger] places[n] < keys.len()
                &&& keys[places[n]] == with_items(Seq::empty(), keys.filter(pass))[n]
                &&& pass(keys[places[n]])
                &&& forall|j: int| 0 <= j < places[n] ==> #[trigger] keys[j] != keys[places[n]]
            },
        forall|n: int, m: int|
            #![trigger places[n], places[m]]
            0 <= n < m < places.len() ==> places[n] < places[m],
        forall|i: int|
            0 <= i < keys.len() && pass(keys[i]) ==> with_items(
                Seq::empty(),
                keys.filter(pass),
            ).contains(#[trigger] keys[i]),
    decreases keys.len(),
{
    reveal(Seq::filter);
    if keys.len() == 0 {
        Seq::empty()
    } else {
        let before = keys.drop_last();
        let last = keys.len() - 1;
        let passed = before.filter(pass);
        let filled = with_items(Seq::empty(), passed);
        let all = with_items(Seq::empty(), keys.filter(pass));
        let places = law_filtered_in_order(before, pass);
        assert(keys.last() == keys[last]);
        assert forall|n: int| 0 <= n < places.len() implies {
            &&& 0 <= #[trigger] places[n] < last
            &&& keys[places[n]] == filled[n]
            &&& pass(keys[places[n]])
            &&& forall|j: int| 0 <= j < places[n] ==> #[trigger] keys[j] != keys[places[n]]
        } by {
            assert forall|j: int| 0 <= j < places[n] implies #[trigger] keys[j]
                != keys[places[n]] by {
                assert(before[j] != before[places[n]]);
            }
        }
        if pass(keys[last]) {
            assert(passed.push(keys[last]).drop_last() =~= passed);
            assert(all == with_item(filled, keys[last]));
        }
        assert forall|i: int| 0 <= i < keys.len() && pass(keys[i]) implies all.contains(
            #[trigger] keys[i],
        ) by {
            if i < last {
                assert(before[i] == keys[i]);
                assert(filled.contains(before[i]));
                let n = choose|n: int| 0 <= n < filled.len() && filled[n] == keys[i];
                assert(all[n] == keys[i]);
            } else if filled.contains(keys[last]) {
                assert(all == filled);
            } else {
                assert(all[all.len() - 1] == keys[last]);
            }
        }
        if !pass(keys[last]) || filled.contains(keys[last]) {
            places
        } else {
            assert forall|j: int| 0 <= j < last implies #[trigger] keys[j] != keys[last] by {
                assert(before[j] == keys[j]);
                if keys[j] == keys[last] {
                    assert(filled.contains(before[j]));
                }
            }
            places.push(last)
        }
    }
}

} // verus!
