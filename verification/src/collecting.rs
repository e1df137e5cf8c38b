//! Collecting the outcomes of a list of items, and picking out of a list.

use vstd::prelude::*;

verus! {

/// Whether `items[k]` is the first item without a value, and `error` is what it gives instead.
pub open spec fn fails_at<A, B, E>(
    items: Seq<A>,
    gives: spec_fn(A, Result<B, E>) -> bool,
    k: int,
    error: E,
) -> bool {
    &&& 0 <= k < items.len()
    &&& forall|i: int| 0 <= i < k ==> has_value(gives, #[trigger] items[i])
    &&& gives(items[k], Err(error))
}

/// Whether `item` can give a value.
pub open spec fn has_value<A, B, E>(gives: spec_fn(A, Result<B, E>) -> bool, item: A) -> bool {
    exists|value: B| #[trigger] gives(item, Ok(value))
}

/// Whether `error` is what the first item without a value gives.
pub open spec fn fails<A, B, E>(
    items: Seq<A>,
    gives: spec_fn(A, Result<B, E>) -> bool,
    error: E,
) -> bool {
    exists|k: int| fails_at(items, gives, k, error)
}

/// Whether `outcome` is what comes of taking the items in order until one fails: the values of
/// all items, or the error of the first item that has none.
pub open spec fn collects<A, B, E>(
    items: Seq<A>,
    gives: spec_fn(A, Result<B, E>) -> bool,
    outcome: Result<Seq<B>, E>,
) -> bool {
    match outcome {
        Ok(values) => {
            &&& values.len() == items.len()
            &&& forall|i: int| 0 <= i < items.len() ==> gives(#[trigger] items[i], Ok(values[i]))
        },
        Err(error) => fails(items, gives, error),
    }
}

/// The value that `pick` finds in the last item in which it finds one.
pub open spec fn last_of<A, B>(items: Seq<A>, pick: spec_fn(A) -> Option<B>) -> Option<B>
    decreases items.len(),
{
    if items.len() == 0 {
        None
    } else {
        match pick(items.last()) {
            Some(value) => Some(value),
            None => last_of(items.drop_last(), pick),
        }
    }
}

/// The lists of `lists`, one after the other.
pub open spec fn joined<A>(lists: Seq<Seq<A>>) -> Seq<A>
    decreases lists.len(),
{
    if lists.len() == 0 {
        Seq::empty()
    } else {
        joined(lists.drop_last()) + lists.last()
    }
}

/// The first failure decides: if the items before `k` have the values `values` and `items[k]`
/// gives `error`, then collecting the items gives `error`.
pub(crate) proof fn lemma_first_failure<A, B, E>(
    items: Seq<A>,
    gives: spec_fn(A, Result<B, E>) -> bool,
    values: Seq<B>,
    error: E,
)
    requires
        values.len() < items.len(),
        forall|i: int| 0 <= i < values.len() ==> gives(#[trigger] items[i], Ok(values[i])),
        gives(items[values.len() as int], Err(error)),
    ensures
        collects(items, gives, Err::<Seq<B>, E>(error)),
{
    assert forall|i: int| 0 <= i < values.len() implies has_value(gives, #[trigger] items[i]) by {
        assert(gives(items[i], Ok(values[i])));
    }
    assert(fails_at(items, gives, values.len() as int, error));
}

/// Whether two outcomes agree: both are values that are alike, or both are the same error.
pub open spec fn agree<B, E>(
    alike: spec_fn(B, B) -> bool,
    first: Result<B, E>,
    second: Result<B, E>,
) -> bool {
    match (first, second) {
        (Ok(x), Ok(y)) => alike(x, y),
        (Err(x), Err(y)) => x == y,
        _ => false,
    }
}

/// Whether two lists are alike item by item.
pub open spec fn all_alike<B>(alike: spec_fn(B, B) -> bool) -> spec_fn(Seq<B>, Seq<B>) -> bool {
    |xs: Seq<B>, ys: Seq<B>|
        {
            &&& xs.len() == ys.len()
            &&& forall|i: int| 0 <= i < xs.len() ==> alike(#[trigger] xs[i], ys[i])
        }
}

/// Whether what is found in two places is alike, or nothing is found in either.
pub open spec fn found_alike<B>(
    alike: spec_fn(B, B) -> bool,
    first: Option<B>,
    second: Option<B>,
) -> bool {
    match (first, second) {
        (Some(x), Some(y)) => alike(x, y),
        (None, None) => true,
        _ => false,
    }
}

/// Whether two values are the same.
pub open spec fn same<B>() -> spec_fn(B, B) -> bool {
    |first: B, second: B| first == second
}

/// Outcomes that agree item by item are the same.
pub(crate) proof fn lemma_same_outcomes<B, E>(first: Result<Seq<B>, E>, second: Result<Seq<B>, E>)
    requires
        agree(all_alike(same()), first, second),
    ensures
        first == second,
{
    if let (Ok(xs), Ok(ys)) = (first, second) {
        assert forall|i: int| 0 <= i < xs.len() implies xs[i] == ys[i] by {
            assert(same::<B>()(xs[i], ys[i]));
        }
        assert(xs =~= ys);
    }
}

/// Whether each item gives one outcome only, values that are alike being taken as one.
pub open spec fn determined<A, B, E>(
    gives: spec_fn(A, Result<B, E>) -> bool,
    alike: spec_fn(B, B) -> bool,
) -> bool {
    forall|item: A, x: Result<B, E>, y: Result<B, E>|
        #[trigger] gives(item, x) && #[trigger] gives(item, y) ==> agree(alike, x, y)
}

/// An item that decides its outcome decides the outcome of the collection: where each item gives
/// one outcome only, so does collecting them.
pub proof fn law_collecting_is_determined<A, B, E>(
    items: Seq<A>,
    gives: spec_fn(A, Result<B, E>) -> bool,
    alike: spec_fn(B, B) -> bool,
    first: Result<Seq<B>, E>,
    second: Result<Seq<B>, E>,
)
    requires
        determined(gives, alike),
        collects(items, gives, first),
        collects(items, gives, second),
    ensures
        agree(all_alike(alike), first, second),
{
    match (first, second) {
        (Ok(xs), Ok(ys)) => {
            assert forall|i: int| 0 <= i < xs.len() implies alike(#[trigger] xs[i], ys[i]) by {
                assert(gives(items[i], Ok(xs[i])));
                assert(gives(items[i], Ok(ys[i])));
            }
        },
        (Ok(xs), Err(error)) => {
            let k = choose|k: int| fails_at(items, gives, k, error);
            assert(gives(items[k], Ok(xs[k])));
        },
        (Err(error), Ok(ys)) => {
            let k = choose|k: int| fails_at(items, gives, k, error);
            assert(gives(items[k], Ok(ys[k])));
        },
        (Err(x), Err(y)) => {
            let j = choose|k: int| fails_at(items, gives, k, x);
            let k = choose|k: int| fails_at(items, gives, k, y);
            if j < k {
                assert(has_value(gives, items[j]));
            } else if k < j {
                assert(has_value(gives, items[k]));
            }
        },
    }
}

/// Collecting agrees with taking each item by itself: where each item gives one outcome only,
/// `singles[i]` being that of `items[i]`, the collection has the values of all items, or the error
/// of the first item that gives one.
pub proof fn law_collecting_agrees_with_each<A, B, E>(
    items: Seq<A>,
    gives: spec_fn(A, Result<B, E>) -> bool,
    alike: spec_fn(B, B) -> bool,
    singles: Seq<Result<B, E>>,
    outcome: Result<Seq<B>, E>,
)
    requires
        determined(gives, alike),
        singles.len() == items.len(),
        forall|i: int| 0 <= i < items.len() ==> gives(items[i], #[trigger] singles[i]),
        collects(items, gives, outcome),
    ensures
        outcome is Ok <==> forall|i: int| 0 <= i < singles.len() ==> #[trigger] singles[i] is Ok,
        outcome matches Ok(values) ==> {
            &&& values.len() == items.len()
            &&& forall|i: int|
                0 <= i < values.len() ==> agree(
                    alike,
                    Ok::<B, E>(#[trigger] values[i]),
                    singles[i],
                )
        },
        outcome matches Err(error) ==> exists|k: int|
            {
                &&& 0 <= k < singles.len()
                &&& #[trigger] singles[k] == Err::<B, E>(error)
                &&& forall|i: int| 0 <= i < k ==> #[trigger] singles[i] is Ok
            },
{
    match outcome {
        Ok(values) => {
            assert forall|i: int| 0 <= i < values.len() implies agree(
                alike,
                Ok::<B, E>(#[trigger] values[i]),
                singles[i],
            ) by {
                assert(gives(items[i], Ok(values[i])));
                assert(gives(items[i], singles[i]));
            }
            assert forall|i: int| 0 <= i < singles.len() implies #[trigger] singles[i] is Ok by {
                assert(agree(alike, Ok::<B, E>(values[i]), singles[i]));
            }
        },
        Err(error) => {
            let k = choose|k: int| fails_at(items, gives, k, error);
            assert(gives(items[k], singles[k]));
            assert forall|i: int| 0 <= i < k implies #[trigger] singles[i] is Ok by {
                assert(has_value(gives, items[i]));
                let value = choose|value: B| #[trigger] gives(items[i], Ok(value));
                assert(gives(items[i], singles[i]));
            }
        },
    }
}

/// What is found in two lists is alike if the lists are, and if alike is what is found in items
/// that are alike.
pub(crate) proof fn lemma_last_is_alike<A, B>(
    xs: Seq<A>,
    ys: Seq<A>,
    alike: spec_fn(A, A) -> bool,
    pick: spec_fn(A) -> Option<B>,
    picked_alike: spec_fn(B, B) -> bool,
)
    requires
        all_alike(alike)(xs, ys),
        forall|x: A, y: A| #[trigger]
            alike(x, y) ==> found_alike(picked_alike, pick(x), pick(y)),
    ensures
        found_alike(picked_alike, last_of(xs, pick), last_of(ys, pick)),
    decreases xs.len(),
{
    if xs.len() > 0 {
        assert(alike(xs[xs.len() - 1], ys[xs.len() - 1]));
        assert forall|i: int| 0 <= i < xs.drop_last().len() implies alike(
            #[trigger] xs.drop_last()[i],
            ys.drop_last()[i],
        ) by {
            assert(alike(xs[i], ys[i]));
        }
        lemma_last_is_alike(xs.drop_last(), ys.drop_last(), alike, pick, picked_alike);
    }
}

/// The last word counts: what is found in the last item is what is found in the list.
pub proof fn law_last_item_wins<A, B>(items: Seq<A>, item: A, pick: spec_fn(A) -> Option<B>)
    ensures
        pick(item) is Some ==> last_of(items.push(item), pick) == pick(item),
        pick(item) is None ==> last_of(items.push(item), pick) == last_of(items, pick),
{
    assert(items.push(item).drop_last() =~= items);
}

/// Something is found in a list exactly if it is found in one of its items.
pub proof fn law_found_in_an_item<A, B>(items: Seq<A>, pick: spec_fn(A) -> Option<B>)
    ensures
        last_of(items, pick) is Some <==> exists|i: int|
            0 <= i < items.len() && pick(#[trigger] items[i]) is Some,
    decreases items.len(),
{
    if items.len() > 0 {
        law_found_in_an_item(items.drop_last(), pick);
        assert(items.last() == items[items.len() - 1]);
        if pick(items.last()) is None && last_of(items.drop_last(), pick) is Some {
            let i = choose|i: int|
                0 <= i < items.drop_last().len() && pick(#[trigger] items.drop_last()[i]) is Some;
            assert(pick(items[i]) is Some);
        }
        if exists|i: int| 0 <= i < items.len() && pick(#[trigger] items[i]) is Some {
            let i = choose|i: int| 0 <= i < items.len() && pick(#[trigger] items[i]) is Some;
            if i < items.len() - 1 {
                assert(pick(items.drop_last()[i]) is Some);
            }
        }
    }
}

/// What is found in two lists, one after the other, is what is found in the second, or else in
/// the first.
pub proof fn law_found_in_two_lists<A, B>(
    first: Seq<A>,
    second: Seq<A>,
    pick: spec_fn(A) -> Option<B>,
)
    ensures
        last_of(first + second, pick) == match last_of(second, pick) {
            Some(value) => Some(value),
            None => last_of(first, pick),
        },
    decreases second.len(),
{
    if second.len() == 0 {
        assert(first + second =~= first);
    } else {
        law_found_in_two_lists(first, second.drop_last(), pick);
        assert((first + second).drop_last() =~= first + second.drop_last());
        assert((first + second).last() == second.last());
    }
}

/// The members of the lists are the members of the joined list.
pub proof fn law_joined_members<A>(lists: Seq<Seq<A>>, member: A)
    ensures
        joined(lists).contains(member) <==> exists|i: int|
            0 <= i < lists.len() && (#[trigger] lists[i]).contains(member),
    decreases lists.len(),
{
    if lists.len() > 0 {
        let before = lists.drop_last();
        let all = joined(lists);
        law_joined_members(before, member);
        if joined(before).contains(member) {
            let i = choose|i: int| 0 <= i < before.len() && (#[trigger] before[i]).contains(member);
            assert(lists[i].contains(member));
            let j = choose|j: int| 0 <= j < joined(before).len() && joined(before)[j] == member;
            assert(all[j] == member);
        }
        if lists.last().contains(member) {
            let j = choose|j: int| 0 <= j < lists.last().len() && lists.last()[j] == member;
            assert(all[joined(before).len() + j] == member);
            assert(lists[lists.len() - 1].contains(member));
        }
        if all.contains(member) {
            let j = choose|j: int| 0 <= j < all.len() && all[j] == member;
            if j < joined(before).len() {
                assert(joined(before)[j] == member);
            } else {
                assert(lists.last()[j - joined(before).len()] == member);
            }
        }
        if exists|i: int| 0 <= i < lists.len() && (#[trigger] lists[i]).contains(member) {
            let i = choose|i: int| 0 <= i < lists.len() && (#[trigger] lists[i]).contains(member);
            if i < before.len() {
                assert(before[i].contains(member));
            } else {
                assert(lists.last().contains(member));
            }
        }
    }
}

/// A list without the item at `n`.
pub open spec fn without<A>(items: Seq<A>, n: int) -> Seq<A> {
    items.take(n) + items.skip(n + 1)
}

/// An item in which nothing is found can be left out.
pub proof fn law_silent_item_can_be_left_out<A, B>(
    items: Seq<A>,
    n: int,
    pick: spec_fn(A) -> Option<B>,
)
    requires
        0 <= n < items.len(),
        pick(items[n]) is None,
    ensures
        last_of(items, pick) == last_of(without(items, n), pick),
{
    let first = items.take(n);
    let rest = items.skip(n + 1);
    law_found_in_two_lists(first, rest, pick);
    law_found_in_two_lists(first.push(items[n]), rest, pick);
    assert(first.push(items[n]).drop_last() =~= first);
    assert(first.push(items[n]) + rest =~= items);
}

/// An item that always has a value can be left out of what is collected.
pub proof fn law_item_with_value_can_be_left_out<A, B, E>(
    items: Seq<A>,
    gives: spec_fn(A, Result<B, E>) -> bool,
    n: int,
    value: B,
)
    requires
        0 <= n < items.len(),
        forall|outcome: Result<B, E>|
            #[trigger] gives(items[n], outcome) <==> outcome == Ok::<B, E>(value),
    ensures
        forall|values: Seq<B>| #[trigger]
            collects(items, gives, Ok::<Seq<B>, E>(values)) ==> values[n] == value && collects(
                without(items, n),
                gives,
                Ok::<Seq<B>, E>(without(values, n)),
            ),
        forall|values: Seq<B>| #[trigger]
            collects(without(items, n), gives, Ok::<Seq<B>, E>(values)) ==> collects(
                items,
                gives,
                Ok::<Seq<B>, E>(values.insert(n, value)),
            ) && without(values.insert(n, value), n) == values,
        forall|error: E| #[trigger]
            collects(items, gives, Err::<Seq<B>, E>(error)) <==> collects(
                without(items, n),
                gives,
                Err::<Seq<B>, E>(error),
            ),
{
    let rest = without(items, n);
    assert forall|values: Seq<B>| #[trigger]
        collects(items, gives, Ok::<Seq<B>, E>(values)) implies values[n] == value && collects(
        rest,
        gives,
        Ok::<Seq<B>, E>(without(values, n)),
    ) by {
        assert(gives(items[n], Ok(values[n])));
        assert forall|i: int| 0 <= i < rest.len() implies gives(
            #[trigger] rest[i],
            Ok(without(values, n)[i]),
        ) by {
            let j = if i < n { i } else { i + 1 };
            assert(rest[i] == items[j]);
            assert(without(values, n)[i] == values[j]);
            assert(gives(items[j], Ok(values[j])));
        }
    }
    assert forall|values: Seq<B>| #[trigger]
        collects(rest, gives, Ok::<Seq<B>, E>(values)) implies collects(
        items,
        gives,
        Ok::<Seq<B>, E>(values.insert(n, value)),
    ) && without(values.insert(n, value), n) == values by {
        let more = values.insert(n, value);
        assert(without(more, n) =~= values);
        assert forall|j: int| 0 <= j < items.len() implies gives(
            #[trigger] items[j],
            Ok(more[j]),
        ) by {
            if j != n {
                let i = if j < n { j } else { j - 1 };
                assert(rest[i] == items[j]);
                assert(more[j] == values[i]);
                assert(gives(rest[i], Ok(values[i])));
            } else {
                assert(more[j] == value);
                assert(gives(items[n], Ok::<B, E>(value)));
            }
        }
    }
    assert forall|error: E| #[trigger]
        collects(items, gives, Err::<Seq<B>, E>(error)) implies collects(
        rest,
        gives,
        Err::<Seq<B>, E>(error),
    ) by {
        let failure: Result<Seq<B>, E> = Err(error);
        assert(failure->Err_0 == error);
        assert(fails(items, gives, error));
        let j = choose|j: int| fails_at(items, gives, j, error);
        assert(gives(items[j], Err(error)));
        let i = if j < n { j } else { j - 1 };
        assert(rest[i] == items[j]);
        assert forall|k: int| 0 <= k < i implies has_value(gives, #[trigger] rest[k]) by {
            assert(rest[k] == items[if k < n { k } else { k + 1 }]);
        }
        assert(fails_at(rest, gives, i, error));
    }
    assert forall|error: E| collects(rest, gives, Err::<Seq<B>, E>(error)) implies #[trigger]
        collects(items, gives, Err::<Seq<B>, E>(error)) by {
        let failure: Result<Seq<B>, E> = Err(error);
        assert(failure->Err_0 == error);
        assert(fails(rest, gives, error));
        let i = choose|i: int| fails_at(rest, gives, i, error);
        let j = if i < n { i } else { i + 1 };
        assert(rest[i] == items[j]);
        assert forall|k: int| 0 <= k < j implies has_value(gives, #[trigger] items[k]) by {
            if k == n {
                assert(gives(items[n], Ok::<B, E>(value)));
            } else {
                assert(rest[if k < n { k } else { k - 1 }] == items[k]);
            }
        }
        assert(fails_at(items, gives, j, error));
    }
}

/// A filter that all items pass changes nothing.
pub(crate) proof fn lemma_all_pass<A>(items: Seq<A>, pass: spec_fn(A) -> bool)
    requires
        forall|i: int| 0 <= i < items.len() ==> pass(#[trigger] items[i]),
    ensures
        items.filter(pass) == items,
    decreases items.len(),
{
    reveal(Seq::filter);
    if items.len() > 0 {
        assert forall|i: int| 0 <= i < items.drop_last().len() implies pass(
            #[trigger] items.drop_last()[i],
        ) by {
            assert(pass(items[i]));
        }
        lemma_all_pass(items.drop_last(), pass);
        assert(pass(items[items.len() - 1]));
        assert(items.drop_last().push(items.last()) =~= items);
    }
}

/// An item that does not pass a filter can be left out before.
pub(crate) proof fn lemma_filtered_without<A>(items: Seq<A>, n: int, pass: spec_fn(A) -> bool)
    requires
        0 <= n < items.len(),
        !pass(items[n]),
    ensures
        without(items, n).filter(pass) == items.filter(pass),
{
    let first = items.take(n);
    let rest = items.skip(n + 1);
    Seq::filter_distributes_over_add(first, rest, pass);
    Seq::filter_distributes_over_add(first.push(items[n]), rest, pass);
    assert(first.push(items[n]) + rest =~= items);
    assert(first.push(items[n]).filter(pass) == first.filter(pass)) by {
        reveal(Seq::filter);
        assert(first.push(items[n]).drop_last() =~= first);
    }
}

/// Whether `other` has the items of `items`, each as often, in some order.
pub open spec fn reordered<A>(items: Seq<A>, other: Seq<A>) -> bool {
    items.to_multiset() == other.to_multiset()
}

/// Whether no two items have the same name.
pub open spec fn told_apart<A, N>(items: Seq<A>, name: spec_fn(A) -> N) -> bool {
    forall|i: int, j: int|
        #![trigger items[i], items[j]]
        0 <= i < j < items.len() ==> name(items[i]) != name(items[j])
}

/// Two lists whose items have different names, within each list and from one to the other, make a
/// list whose items have different names.
pub(crate) proof fn lemma_told_apart_in_two_lists<A, N>(
    first: Seq<A>,
    second: Seq<A>,
    name: spec_fn(A) -> N,
)
    requires
        told_apart(first, name),
        told_apart(second, name),
        forall|i: int, j: int|
            #![trigger first[i], second[j]]
            0 <= i < first.len() && 0 <= j < second.len() ==> name(first[i]) != name(second[j]),
    ensures
        told_apart(first + second, name),
{
    let all = first + second;
    assert forall|i: int, j: int|
        #![trigger all[i], all[j]]
        0 <= i < j < all.len() implies name(all[i]) != name(all[j]) by {
        let n = first.len();
        if j < n {
            assert(name(first[i]) != name(first[j]));
        } else if i < n {
            assert(name(first[i]) != name(second[j - n]));
        } else {
            assert(name(second[i - n]) != name(second[j - n]));
        }
    }
}

/// The values that belong to `items`, in the order of `other`.
pub open spec fn moved<A, B>(items: Seq<A>, values: Seq<B>, other: Seq<A>) -> Seq<B> {
    Seq::new(other.len(), |i: int| values[items.index_of(other[i])])
}

/// Items with different names have different names in any order, and are the same items.
pub(crate) proof fn lemma_reordered<A, N>(items: Seq<A>, other: Seq<A>, name: spec_fn(A) -> N)
    requires
        told_apart(items, name),
        reordered(items, other),
    ensures
        other.len() == items.len(),
        told_apart(other, name),
        reordered(other, items),
        forall|i: int| 0 <= i < other.len() ==> items.contains(#[trigger] other[i]),
        forall|i: int| 0 <= i < items.len() ==> other.contains(#[trigger] items[i]),
{
    broadcast use vstd::multiset::group_multiset_axioms;

    items.to_multiset_ensures();
    other.to_multiset_ensures();
    assert(items.no_duplicates()) by {
        assert forall|i: int, j: int|
            0 <= i < items.len() && 0 <= j < items.len() && i != j implies items[i] != items[j] by {
            if i < j {
                assert(name(items[i]) != name(items[j]));
            } else {
                assert(name(items[j]) != name(items[i]));
            }
        }
    }
    items.lemma_multiset_has_no_duplicates();
    other.lemma_multiset_has_no_duplicates_conv();
    assert forall|i: int| 0 <= i < other.len() implies items.contains(#[trigger] other[i]) by {
        assert(other.contains(other[i]));
        assert(other.to_multiset().count(other[i]) > 0);
        assert(items.to_multiset().count(other[i]) > 0);
    }
    assert forall|i: int| 0 <= i < items.len() implies other.contains(#[trigger] items[i]) by {
        assert(items.contains(items[i]));
        assert(items.to_multiset().count(items[i]) > 0);
        assert(other.to_multiset().count(items[i]) > 0);
    }
    assert forall|i: int, j: int|
        #![trigger other[i], other[j]]
        0 <= i < j < other.len() implies name(other[i]) != name(other[j]) by {
        assert(items.contains(other[i]) && items.contains(other[j]));
        let k = choose|k: int| 0 <= k < items.len() && items[k] == other[i];
        let l = choose|l: int| 0 <= l < items.len() && items[l] == other[j];
        if k < l {
            assert(name(items[k]) != name(items[l]));
        } else if l < k {
            assert(name(items[l]) != name(items[k]));
        }
    }
}

/// Where no two items have the same name, the order in which they are collected makes no
/// difference to their values.
pub proof fn law_collecting_in_another_order<A, B, E, N>(
    items: Seq<A>,
    gives: spec_fn(A, Result<B, E>) -> bool,
    values: Seq<B>,
    other: Seq<A>,
    name: spec_fn(A) -> N,
)
    requires
        told_apart(items, name),
        reordered(items, other),
        collects(items, gives, Ok::<Seq<B>, E>(values)),
    ensures
        collects(other, gives, Ok::<Seq<B>, E>(moved(items, values, other))),
{
    lemma_reordered(items, other, name);
    let there = moved(items, values, other);
    assert forall|i: int| 0 <= i < other.len() implies gives(
        #[trigger] other[i],
        Ok(there[i]),
    ) by {
        assert(items.contains(other[i]));
        let k = items.index_of(other[i]);
        assert(0 <= k < items.len() && items[k] == other[i]);
        assert(gives(items[k], Ok(values[k])));
    }
}

/// Where no two items have the same name, and something is found only in the value of the item
/// named `only`, the order of the items makes no difference to what is found.
pub proof fn law_found_in_another_order<A, B, C, N>(
    items: Seq<A>,
    values: Seq<B>,
    other: Seq<A>,
    name: spec_fn(A) -> N,
    only: N,
    pick: spec_fn(B) -> Option<C>,
)
    requires
        told_apart(items, name),
        reordered(items, other),
        values.len() == items.len(),
        forall|i: int|
            0 <= i < values.len() && pick(#[trigger] values[i]) is Some ==> name(items[i]) == only,
    ensures
        last_of(moved(items, values, other), pick) == last_of(values, pick),
{
    lemma_reordered(items, other, name);
    let there = moved(items, values, other);
    assert forall|i: int| 0 <= i < other.len() implies {
        let k = items.index_of(#[trigger] other[i]);
        0 <= k < items.len() && items[k] == other[i] && there[i] == values[k]
    } by {
        assert(items.contains(other[i]));
    }
    assert forall|i: int|
        0 <= i < there.len() && pick(#[trigger] there[i]) is Some implies name(other[i]) == only by {
        let k = items.index_of(other[i]);
        assert(pick(values[k]) is Some);
    }
    law_found_in_an_item(values, pick);
    law_found_in_an_item(there, pick);
    if last_of(values, pick) is Some {
        let k = choose|k: int| 0 <= k < values.len() && pick(#[trigger] values[k]) is Some;
        assert(other.contains(items[k]));
        let i = choose|i: int| 0 <= i < other.len() && other[i] == items[k];
        let j = items.index_of(other[i]);
        if j < k {
            assert(name(items[j]) != name(items[k]));
        } else if k < j {
            assert(name(items[k]) != name(items[j]));
        }
        assert(there[i] == values[k]);
        lemma_found_once(items, values, name, only, pick, k);
        lemma_found_once(other, there, name, only, pick, i);
    } else if last_of(there, pick) is Some {
        let i = choose|i: int| 0 <= i < there.len() && pick(#[trigger] there[i]) is Some;
        let k = items.index_of(other[i]);
        assert(pick(values[k]) is Some);
    }
}

/// What is found in the value of one item only is what is found in the list.
proof fn lemma_found_once<A, B, C, N>(
    items: Seq<A>,
    values: Seq<B>,
    name: spec_fn(A) -> N,
    only: N,
    pick: spec_fn(B) -> Option<C>,
    k: int,
)
    requires
        told_apart(items, name),
        values.len() == items.len(),
        forall|i: int|
            0 <= i < values.len() && pick(#[trigger] values[i]) is Some ==> name(items[i]) == only,
        0 <= k < values.len(),
        pick(values[k]) is Some,
    ensures
        last_of(values, pick) == pick(values[k]),
    decreases values.len(),
{
    let last = values.len() - 1;
    if k < last {
        assert(name(items[k]) != name(items[last]));
        let before = values.drop_last();
        let items_before = items.drop_last();
        assert forall|i: int|
            0 <= i < before.len() && pick(#[trigger] before[i]) is Some implies name(
            items_before[i],
        ) == only by {
            assert(pick(values[i]) is Some);
        }
        assert forall|i: int, j: int|
            #![trigger items_before[i], items_before[j]]
            0 <= i < j < items_before.len() implies name(items_before[i]) != name(
            items_before[j],
        ) by {
            assert(name(items[i]) != name(items[j]));
        }
        lemma_found_once(items_before, before, name, only, pick, k);
    }
}

/// Collecting item by item: nothing gives the empty list; one more item adds its value to the list,
/// or its error where all items before it can have a value; and an error stays what it is, whatever
/// item follows.
pub proof fn law_one_more_item<A, B, E>(
    items: Seq<A>,
    item: A,
    gives: spec_fn(A, Result<B, E>) -> bool,
    outcome: Result<Seq<B>, E>,
    values: Seq<B>,
    value: B,
    error: E,
)
    ensures
        collects(Seq::<A>::empty(), gives, outcome) <==> outcome == Ok::<Seq<B>, E>(Seq::empty()),
        collects(items, gives, outcome) && outcome is Ok ==> outcome->Ok_0.len() == items.len(),
        collects(items.push(item), gives, Ok::<Seq<B>, E>(values.push(value))) <==> collects(
            items,
            gives,
            Ok::<Seq<B>, E>(values),
        ) && gives(item, Ok(value)),
        collects(items, gives, Err::<Seq<B>, E>(error)) ==> collects(
            items.push(item),
            gives,
            Err::<Seq<B>, E>(error),
        ),
        collects(items, gives, Ok::<Seq<B>, E>(values)) && gives(item, Err(error)) ==> collects(
            items.push(item),
            gives,
            Err::<Seq<B>, E>(error),
        ),
        collects(items.push(item), gives, Err::<Seq<B>, E>(error)) && !collects(
            items,
            gives,
            Err::<Seq<B>, E>(error),
        ) ==> gives(item, Err(error)) && exists|found: Seq<B>| #[trigger]
            collects(items, gives, Ok::<Seq<B>, E>(found)),
{
    let more = items.push(item);
    let n = items.len() as int;
    let all = values.push(value);
    if collects(Seq::<A>::empty(), gives, outcome) {
        match outcome {
            Ok(values) => {
                assert(values =~= Seq::<B>::empty());
            },
            Err(error) => {
                assert(fails(Seq::<A>::empty(), gives, error));
            },
        }
    }
    if collects(more, gives, Ok::<Seq<B>, E>(all)) {
        assert(gives(more[n], Ok(all[n])));
        assert forall|i: int| 0 <= i < n implies gives(#[trigger] items[i], Ok(values[i])) by {
            assert(gives(more[i], Ok(all[i])));
        }
    }
    if collects(items, gives, Ok::<Seq<B>, E>(values)) && gives(item, Ok(value)) {
        assert forall|i: int| 0 <= i < more.len() implies gives(#[trigger] more[i], Ok(all[i])) by {
            if i < n {
                assert(gives(items[i], Ok(values[i])));
            }
        }
    }
    let failure: Result<Seq<B>, E> = Err(error);
    assert(failure->Err_0 == error);
    if collects(more, gives, failure) {
        assert(fails(more, gives, error));
        let k = choose|k: int| fails_at(more, gives, k, error);
        assert forall|i: int| 0 <= i < k && i < n implies has_value(gives, #[trigger] items[i]) by {
            assert(has_value(gives, more[i]));
        }
        if k < n {
            assert(items[k] == more[k]);
            assert(fails_at(items, gives, k, error));
            assert(collects(items, gives, failure));
        } else {
            assert(more[k] == item);
            assert(gives(item, Err(error)));
            let found: Seq<B> = Seq::new(
                items.len(),
                |i: int| choose|value: B| #[trigger] gives(items[i], Ok(value)),
            );
            assert forall|i: int| 0 <= i < items.len() implies gives(
                #[trigger] items[i],
                Ok(found[i]),
            ) by {
                assert(has_value(gives, items[i]));
                let value = choose|value: B| #[trigger] gives(items[i], Ok(value));
                assert(gives(items[i], Ok(value)));
            }
            assert(collects(items, gives, Ok::<Seq<B>, E>(found)));
        }
    }
    if collects(items, gives, failure) {
        assert(fails(items, gives, error));
        let k = choose|k: int| fails_at(items, gives, k, error);
        assert forall|i: int| 0 <= i < k implies has_value(gives, #[trigger] more[i]) by {
            assert(has_value(gives, items[i]));
        }
        assert(more[k] == items[k]);
        assert(fails_at(more, gives, k, error));
        assert(collects(more, gives, failure));
    }
    if collects(items, gives, Ok::<Seq<B>, E>(values)) && gives(item, Err(error)) {
        assert(more[n] == item);
        assert forall|i: int| 0 <= i < values.len() implies gives(
            #[trigger] more[i],
            Ok(values[i]),
        ) by {
            assert(gives(items[i], Ok(values[i])));
        }
        lemma_first_failure(more, gives, values, error);
    }
}

/// What is found in a list is what is found in an item after which nothing is found; and nothing is
/// found where no item has anything.
pub proof fn law_last_find_counts<A, B>(items: Seq<A>, pick: spec_fn(A) -> Option<B>, k: int)
    ensures
        0 <= k < items.len() && pick(items[k]) is Some && (forall|j: int|
            k < j < items.len() ==> pick(#[trigger] items[j]) is None) ==> last_of(items, pick)
            == pick(items[k]),
        (forall|j: int| 0 <= j < items.len() ==> pick(#[trigger] items[j]) is None) ==> last_of(
            items,
            pick,
        ) is None,
    decreases items.len(),
{
    if items.len() > 0 {
        let before = items.drop_last();
        law_last_find_counts(before, pick, k);
        assert(items.last() == items[items.len() - 1]);
        if 0 <= k < items.len() && pick(items[k]) is Some && (forall|j: int|
            k < j < items.len() ==> pick(#[trigger] items[j]) is None) && k < items.len() - 1 {
            assert forall|j: int| k < j < before.len() implies pick(#[trigger] before[j]) is None by {
                assert(pick(items[j]) is None);
            }
            assert(before[k] == items[k]);
        }
        if forall|j: int| 0 <= j < items.len() ==> pick(#[trigger] items[j]) is None {
            assert forall|j: int| 0 <= j < before.len() implies pick(
                #[trigger] before[j],
            ) is None by {
                assert(pick(items[j]) is None);
            }
        }
    }
}

/// Joining list by list: one more list is put behind the others.
pub proof fn law_one_more_list<A>(lists: Seq<Seq<A>>, list: Seq<A>)
    ensures
        joined(Seq::<Seq<A>>::empty()) == Seq::<A>::empty(),
        joined(lists.push(list)) == joined(lists) + list,
{
    assert(lists.push(list).drop_last() =~= lists);
}

} // verus!
