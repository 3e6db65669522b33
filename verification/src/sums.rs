//! Sums over lists, read off the items one by one.

use vstd::prelude::*;

verus! {

/// What `f` gives for the items, added up.
pub open spec fn sum_by<T>(items: Seq<T>, f: spec_fn(T) -> nat) -> nat
    decreases items.len(),
{
    if items.len() == 0 {
        0
    } else {
        sum_by(items.drop_last(), f) + f(items.last())
    }
}

/// A sum over two lists is the sum over one and the sum over the other.
pub proof fn lemma_sum_add<T>(a: Seq<T>, b: Seq<T>, f: spec_fn(T) -> nat)
    ensures
        sum_by(a + b, f) == sum_by(a, f) + sum_by(b, f),
    decreases b.len(),
{
    if b.len() == 0 {
        assert(a + b =~= a);
    } else {
        lemma_sum_add(a, b.drop_last(), f);
        assert((a + b).drop_last() =~= a + b.drop_last());
    }
}

/// An item at the end adds what it gives.
pub proof fn lemma_sum_push<T>(items: Seq<T>, item: T, f: spec_fn(T) -> nat)
    ensures
        sum_by(items.push(item), f) == sum_by(items, f) + f(item),
{
    assert(items.push(item).drop_last() =~= items);
}

/// Lists that give the same item by item have the same sum.
pub proof fn lemma_sum_same<T, U>(
    a: Seq<T>,
    b: Seq<U>,
    f: spec_fn(T) -> nat,
    g: spec_fn(U) -> nat,
)
    requires
        a.len() == b.len(),
        forall|i: int| 0 <= i < a.len() ==> f(#[trigger] a[i]) == g(b[i]),
    ensures
        sum_by(a, f) == sum_by(b, g),
    decreases a.len(),
{
    if a.len() > 0 {
        let x = a.drop_last();
        let y = b.drop_last();
        assert forall|i: int| 0 <= i < x.len() implies f(#[trigger] x[i]) == g(y[i]) by {
            assert(x[i] == a[i]);
        }
        lemma_sum_same(x, y, f, g);
        assert(f(a[a.len() - 1]) == g(b[a.len() - 1]));
    }
}

/// Leaving out items that give nothing does not change a sum.
pub proof fn lemma_sum_filter<T>(items: Seq<T>, pred: spec_fn(T) -> bool, f: spec_fn(T) -> nat)
    requires
        forall|i: int| 0 <= i < items.len() ==> pred(#[trigger] items[i]) || f(items[i]) == 0,
    ensures
        sum_by(items.filter(pred), f) == sum_by(items, f),
    decreases items.len(),
{
    if items.len() == 0 {
        items.lemma_filter_len(pred);
    } else {
        let rest = items.drop_last();
        let last = items.last();
        assert forall|i: int| 0 <= i < rest.len() implies pred(#[trigger] rest[i]) || f(rest[i])
            == 0 by {
            assert(rest[i] == items[i]);
        }
        lemma_sum_filter(rest, pred, f);
        assert(items =~= rest.push(last));
        rest.lemma_filter_push(last, pred);
        lemma_sum_push(rest.filter(pred), last, f);
        assert(pred(items[items.len() - 1]) || f(items[items.len() - 1]) == 0);
    }
}

} // verus!
