//! First matches in sequences, and what is picked out of them.

use vstd::prelude::*;

verus! {

/// The position of the first item that `pred` holds of.
pub open spec fn first_where<T>(items: Seq<T>, pred: spec_fn(T) -> bool) -> Option<int>
    decreases items.len(),
{
    if items.len() == 0 {
        None
    } else if pred(items[0]) {
        Some(0)
    } else {
        match first_where(items.drop_first(), pred) {
            Some(i) => Some(i + 1),
            None => None,
        }
    }
}

/// The first match is the one that no other comes before.
pub proof fn lemma_first_is<T>(items: Seq<T>, pred: spec_fn(T) -> bool, i: int)
    requires
        0 <= i < items.len(),
        pred(items[i]),
        forall|j: int| 0 <= j < i ==> !pred(#[trigger] items[j]),
    ensures
        first_where(items, pred) == Some(i),
    decreases items.len(),
{
    if i > 0 {
        let rest = items.drop_first();
        assert forall|j: int| 0 <= j < i - 1 implies !pred(#[trigger] rest[j]) by {
            assert(rest[j] == items[j + 1]);
        }
        assert(!pred(items[0]));
        lemma_first_is(rest, pred, i - 1);
    }
}

/// Without a match there is no first one.
pub proof fn lemma_first_none<T>(items: Seq<T>, pred: spec_fn(T) -> bool)
    requires
        forall|j: int| 0 <= j < items.len() ==> !pred(#[trigger] items[j]),
    ensures
        first_where(items, pred) is None,
    decreases items.len(),
{
    if items.len() > 0 {
        let rest = items.drop_first();
        assert forall|j: int| 0 <= j < rest.len() implies !pred(#[trigger] rest[j]) by {
            assert(rest[j] == items[j + 1]);
        }
        lemma_first_none(rest, pred);
    }
}

/// What a first match is, and what it means that there is none.
pub proof fn lemma_first_where<T>(items: Seq<T>, pred: spec_fn(T) -> bool)
    ensures
        match first_where(items, pred) {
            Some(i) => 0 <= i < items.len() && pred(items[i]) && forall|j: int|
                0 <= j < i ==> !pred(#[trigger] items[j]),
            None => forall|j: int| 0 <= j < items.len() ==> !pred(#[trigger] items[j]),
        },
    decreases items.len(),
{
    if items.len() > 0 && !pred(items[0]) {
        let rest = items.drop_first();
        lemma_first_where(rest, pred);
        match first_where(rest, pred) {
            Some(i) => {
                assert forall|j: int| 0 <= j < i + 1 implies !pred(#[trigger] items[j]) by {
                    if j > 0 {
                        assert(items[j] == rest[j - 1]);
                    }
                }
            },
            None => {
                assert forall|j: int| 0 <= j < items.len() implies !pred(#[trigger] items[j]) by {
                    if j > 0 {
                        assert(items[j] == rest[j - 1]);
                    }
                }
            },
        }
    }
}

/// The items that `pred` holds of, in order.
pub open spec fn picked<T>(items: Seq<T>, pred: spec_fn(T) -> bool) -> Seq<T>
    decreases items.len(),
{
    if items.len() == 0 {
        Seq::empty()
    } else {
        let before = picked(items.drop_last(), pred);
        if pred(items.last()) {
            before.push(items.last())
        } else {
            before
        }
    }
}

/// One item more is picked if `pred` holds of it.
pub proof fn lemma_picked_push<T>(items: Seq<T>, pred: spec_fn(T) -> bool, item: T)
    ensures
        picked(items.push(item), pred) == if pred(item) {
            picked(items, pred).push(item)
        } else {
            picked(items, pred)
        },
{
    assert(items.push(item).drop_last() =~= items);
}

/// What is picked of two sequences behind each other.
pub proof fn lemma_picked_concat<T>(a: Seq<T>, b: Seq<T>, pred: spec_fn(T) -> bool)
    ensures
        picked(a + b, pred) == picked(a, pred) + picked(b, pred),
    decreases b.len(),
{
    if b.len() == 0 {
        assert(a + b =~= a);
        assert(picked(a, pred) + picked(b, pred) =~= picked(a, pred));
    } else {
        lemma_picked_concat(a, b.drop_last(), pred);
        assert(a + b =~= (a + b.drop_last()).push(b.last()));
        lemma_picked_push(a + b.drop_last(), pred, b.last());
        assert(picked(a + b, pred) =~= picked(a, pred) + picked(b, pred));
    }
}

/// Of what is picked, `pred` holds, and it stands in the sequence.
pub proof fn lemma_picked_holds<T>(items: Seq<T>, pred: spec_fn(T) -> bool)
    ensures
        picked(items, pred).len() <= items.len(),
        forall|i: int|
            0 <= i < picked(items, pred).len() ==> pred(#[trigger] picked(items, pred)[i])
                && items.contains(picked(items, pred)[i]),
    decreases items.len(),
{
    if items.len() > 0 {
        let rest = items.drop_last();
        lemma_picked_holds(rest, pred);
        assert forall|i: int| 0 <= i < picked(items, pred).len() implies pred(
            #[trigger] picked(items, pred)[i],
        ) && items.contains(picked(items, pred)[i]) by {
            if i < picked(rest, pred).len() {
                let x = picked(rest, pred)[i];
                assert(rest.contains(x));
                let k = choose|k: int| 0 <= k < rest.len() && rest[k] == x;
                assert(items[k] == x);
            } else {
                assert(items[items.len() - 1] == items.last());
            }
        }
    }
}

/// Picking again by what all picked items have picks all, by what none of them
/// has none.
pub proof fn lemma_picked_twice<T>(
    items: Seq<T>,
    first: spec_fn(T) -> bool,
    second: spec_fn(T) -> bool,
)
    ensures
        (forall|x: T| #[trigger] first(x) ==> second(x)) ==> picked(picked(items, first), second) == picked(
            items,
            first,
        ),
        (forall|x: T| #[trigger] first(x) ==> !second(x)) ==> picked(picked(items, first), second) == Seq::<
            T,
        >::empty(),
        (forall|x: T| #[trigger] second(x) ==> first(x)) ==> picked(picked(items, first), second) == picked(
            items,
            second,
        ),
    decreases items.len(),
{
    if items.len() > 0 {
        let rest = items.drop_last();
        lemma_picked_twice(rest, first, second);
        if first(items.last()) {
            lemma_picked_push(picked(rest, first), second, items.last());
        }
    }
}

/// Where `whole` holds of what either of two others holds of, and those never
/// hold together, what they pick is what it picks.
pub proof fn lemma_picked_parts<T>(
    items: Seq<T>,
    one: spec_fn(T) -> bool,
    other: spec_fn(T) -> bool,
    whole: spec_fn(T) -> bool,
)
    requires
        forall|x: T| #[trigger] whole(x) <==> one(x) || other(x),
        forall|x: T| !(#[trigger] one(x) && other(x)),
    ensures
        picked(items, one).to_multiset().add(picked(items, other).to_multiset()) == picked(
            items,
            whole,
        ).to_multiset(),
    decreases items.len(),
{
    broadcast use vstd::seq_lib::group_to_multiset_ensures;

    if items.len() > 0 {
        lemma_picked_parts(items.drop_last(), one, other, whole);
        let x = items.last();
        assert(whole(x) <==> one(x) || other(x));
        assert(!(one(x) && other(x)));
    }
    assert(picked(items, one).to_multiset().add(picked(items, other).to_multiset()) =~= picked(
        items,
        whole,
    ).to_multiset());
}

/// What holds of every item picks all of them.
pub proof fn lemma_picked_all<T>(items: Seq<T>, pred: spec_fn(T) -> bool)
    requires
        forall|x: T| #[trigger] pred(x),
    ensures
        picked(items, pred) == items,
    decreases items.len(),
{
    if items.len() > 0 {
        lemma_picked_all(items.drop_last(), pred);
        assert(pred(items.last()));
        assert(items.drop_last().push(items.last()) =~= items);
    }
}

/// An item that `pred` holds of is picked, and stands behind what is picked of
/// the items before it.
pub proof fn lemma_picked_keeps<T>(items: Seq<T>, pred: spec_fn(T) -> bool, i: int)
    requires
        0 <= i < items.len(),
        pred(items[i]),
    ensures
        picked(items.take(i), pred).len() < picked(items, pred).len(),
        picked(items, pred)[picked(items.take(i), pred).len() as int] == items[i],
        picked(items, pred).contains(items[i]),
{
    let front = items.take(i).push(items[i]);
    lemma_picked_push(items.take(i), pred, items[i]);
    lemma_picked_concat(front, items.skip(i + 1), pred);
    assert(front + items.skip(i + 1) =~= items);
    let at = picked(items.take(i), pred).len() as int;
    assert(picked(items, pred)[at] == items[i]);
}

} // verus!
