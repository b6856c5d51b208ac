//! Comparison of identifier lists as sets.

use vstd::prelude::*;
use vstd::std_specs::cmp::PartialEqSpec;

verus! {

/// Whether `value` occurs in `ids`.
pub open spec fn has_id(ids: Seq<u32>, value: u32) -> bool {
    exists|j: int| 0 <= j < ids.len() && ids[j] == value
}

/// Two identifier lists count as equal when they hold the same set of
/// identifiers: whatever occurs in one occurs in the other. Neither the
/// order nor the number of times that an identifier occurs counts.
pub open spec fn ids_match(first: Seq<u32>, other: Seq<u32>) -> bool {
    forall|value: u32| #[trigger] has_id(first, value) <==> has_id(other, value)
}

/// Whether some item of `items` equals `value`, as the `==` of the items
/// says.
pub open spec fn has_item<T: PartialEq>(items: Seq<T>, value: T) -> bool {
    exists|j: int| 0 <= j < items.len() && #[trigger] items[j].eq_spec(&value)
}

/// Two lists count as equal when every item of each equals some item of the
/// other, as the `==` of the items says. Neither the order nor the number
/// of times that an item occurs counts.
pub open spec fn items_match<T: PartialEq>(first: Seq<T>, other: Seq<T>) -> bool {
    &&& forall|i: int| 0 <= i < first.len() ==> has_item(other, #[trigger] first[i])
    &&& forall|j: int| 0 <= j < other.len() ==> has_item(first, #[trigger] other[j])
}

/// For identifiers, `has_item` is `has_id`.
pub proof fn lemma_has_item_id(ids: Seq<u32>, value: u32)
    ensures
        has_item(ids, value) == has_id(ids, value),
{
    if has_item(ids, value) {
        let j = choose|j: int| 0 <= j < ids.len() && #[trigger] ids[j].eq_spec(&value);
        assert(ids[j] == value);
    }
    if has_id(ids, value) {
        let j = choose|j: int| 0 <= j < ids.len() && ids[j] == value;
        assert(ids[j].eq_spec(&value));
    }
}

/// For identifiers, `items_match` is `ids_match`.
pub proof fn lemma_items_match_ids(first: Seq<u32>, other: Seq<u32>)
    ensures
        items_match(first, other) == ids_match(first, other),
{
    assert forall|value: u32| has_item(first, value) == has_id(first, value) by {
        lemma_has_item_id(first, value);
    }
    assert forall|value: u32| has_item(other, value) == has_id(other, value) by {
        lemma_has_item_id(other, value);
    }
    if items_match(first, other) {
        assert forall|value: u32| #[trigger] has_id(first, value) <==> has_id(other, value) by {
            if has_id(first, value) {
                let i = choose|i: int| 0 <= i < first.len() && first[i] == value;
                assert(has_item(other, first[i]));
            }
            if has_id(other, value) {
                let j = choose|j: int| 0 <= j < other.len() && other[j] == value;
                assert(has_item(first, other[j]));
            }
        }
    }
    if ids_match(first, other) {
        assert forall|i: int| 0 <= i < first.len() implies has_item(other, #[trigger] first[i]) by {
            assert(has_id(first, first[i]));
        }
        assert forall|j: int| 0 <= j < other.len() implies has_item(first, #[trigger] other[j]) by {
            assert(has_id(other, other[j]));
        }
    }
}

/// Whether some item of `items` equals `value`.
pub fn contains_item<T: PartialEq>(items: &[T], value: &T) -> (found: bool)
    ensures
        T::obeys_eq_spec() ==> found == has_item(items@, *value),
{
    let mut j: usize = 0;
    while j < items.len()
        invariant
            j <= items.len(),
            T::obeys_eq_spec() ==> forall|k: int|
                0 <= k < j ==> !(#[trigger] items@[k]).eq_spec(value),
        decreases items.len() - j,
    {
        if items[j] == *value {
            return true;
        }
        j += 1;
    }
    false
}

/// Whether every item of `items` equals some item of `others`.
pub fn all_contained<T: PartialEq>(items: &[T], others: &[T]) -> (all: bool)
    ensures
        T::obeys_eq_spec() ==> all == (forall|i: int|
            0 <= i < items.len() ==> has_item(others@, #[trigger] items@[i])),
{
    let mut i: usize = 0;
    while i < items.len()
        invariant
            i <= items.len(),
            T::obeys_eq_spec() ==> forall|k: int|
                0 <= k < i ==> has_item(others@, #[trigger] items@[k]),
        decreases items.len() - i,
    {
        if !contains_item(others, &items[i]) {
            return false;
        }
        i += 1;
    }
    true
}

/// Compares two lists as sets: without regard to order or to how often an
/// item occurs.
pub fn vectors_equal<T>(first_ids: &[T], other_ids: &[T]) -> (same: bool) where T: PartialEq
    ensures
        T::obeys_eq_spec() ==> same == items_match(first_ids@, other_ids@),
{
    all_contained(first_ids, other_ids) && all_contained(other_ids, first_ids)
}

} // verus!
