//! Sequences of values, seen through the views of the values.

use vstd::prelude::*;

verus! {

/// The views of the values of `items`.
pub open spec fn of<T: View>(items: Seq<T>) -> Seq<T::V> {
    items.map_values(|item: T| item@)
}

/// The view of a text that may be absent.
pub open spec fn text(text: Option<String>) -> Option<Seq<char>> {
    match text {
        Some(text) => Some(text@),
        None => None,
    }
}

pub broadcast proof fn lemma_views_push<T: View>(items: Seq<T>, item: T)
    ensures
        #[trigger] of(items.push(item)) == of(items).push(item@),
{
    assert(of(items.push(item)) =~= of(items).push(item@));
}

pub broadcast proof fn lemma_views_concat<T: View>(a: Seq<T>, b: Seq<T>)
    ensures
        #[trigger] of(a + b) == of(a) + of(b),
{
    assert(of(a + b) =~= of(a) + of(b));
}

pub broadcast proof fn lemma_views_empty<T: View>()
    ensures
        #[trigger] of(Seq::<T>::empty()) == Seq::<T::V>::empty(),
{
    assert(of(Seq::<T>::empty()) =~= Seq::<T::V>::empty());
}

pub broadcast proof fn lemma_views_len<T: View>(items: Seq<T>)
    ensures
        #[trigger] of(items).len() == items.len(),
{
}

pub broadcast proof fn lemma_views_index<T: View>(items: Seq<T>, i: int)
    requires
        0 <= i < items.len(),
    ensures
        #[trigger] of(items)[i] == items[i]@,
{
}

pub broadcast group group_views {
    lemma_views_push,
    lemma_views_concat,
    lemma_views_empty,
    lemma_views_len,
    lemma_views_index,
}

} // verus!
