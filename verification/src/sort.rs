//! Stable sorting of values that have a rank.

use vstd::prelude::*;

verus! {

/// Values that can be put in rank order. Several values may share a rank.
pub trait Ranked: Sized {
    /// `self` has a rank at or before the rank of `other`.
    spec fn precedes(&self, other: &Self) -> bool;

    /// Any two values are comparable.
    proof fn rank_total(a: &Self, b: &Self)
        ensures
            a.precedes(b) || b.precedes(a),
    ;

    /// Ranks chain.
    proof fn rank_transitive(a: &Self, b: &Self, c: &Self)
        requires
            a.precedes(b),
            b.precedes(c),
        ensures
            a.precedes(c),
    ;

    /// Whether `self` has a rank at or before the rank of `other`.
    fn at_or_before(&self, other: &Self) -> (r: bool)
        ensures
            r == self.precedes(other),
    ;
}

/// Two values share a rank.
pub open spec fn tied<T: Ranked>(a: T, b: T) -> bool {
    a.precedes(&b) && b.precedes(&a)
}

/// The values of `s` that share the rank of `x`, in their order in `s`.
pub open spec fn ties<T: Ranked>(s: Seq<T>, x: T) -> Seq<T> {
    s.filter(|y: T| tied(x, y))
}

/// No value has a rank after that of a later one.
pub open spec fn in_rank_order<T: Ranked>(s: Seq<T>) -> bool {
    forall|i: int, j: int| 0 <= i <= j < s.len() ==> #[trigger] s[i].precedes(#[trigger] &s[j])
}

/// `output` holds the values of `input` in rank order, and values that share a rank stay in the
/// order they had.
pub open spec fn is_stable_sort<T: Ranked>(input: Seq<T>, output: Seq<T>) -> bool {
    &&& in_rank_order(output)
    &&& output.to_multiset() == input.to_multiset()
    &&& forall|x: T| #[trigger] ties(output, x) == ties(input, x)
}

proof fn lemma_ties_push<T: Ranked>(s: Seq<T>, y: T, x: T)
    ensures
        ties(s.push(y), x) == (if tied(x, y) {
            ties(s, x).push(y)
        } else {
            ties(s, x)
        }),
{
    s.lemma_filter_push(y, |y: T| tied(x, y));
}

proof fn lemma_ties_add<T: Ranked>(a: Seq<T>, b: Seq<T>, x: T)
    ensures
        ties(a + b, x) == ties(a, x) + ties(b, x),
{
    Seq::filter_distributes_over_add(a, b, |y: T| tied(x, y));
}

proof fn lemma_ties_none<T: Ranked>(s: Seq<T>, x: T)
    requires
        forall|i: int| 0 <= i < s.len() ==> !tied(x, #[trigger] s[i]),
    ensures
        ties(s, x) == Seq::<T>::empty(),
{
    s.lemma_all_neg_filter_empty(|y: T| tied(x, y));
    assert(ties(s, x) =~= Seq::<T>::empty());
}

/// What remains of the two runs and what has been merged, against the runs at the start.
spec fn merge_state<T: Ranked>(whole: Seq<T>, left: Seq<T>, right: Seq<T>, tail: Seq<T>) -> bool {
    &&& in_rank_order(left)
    &&& in_rank_order(right)
    &&& in_rank_order(tail)
    &&& forall|i: int, j: int|
        0 <= i < left.len() && 0 <= j < tail.len() ==> #[trigger] left[i].precedes(
            #[trigger] &tail[j],
        )
    &&& forall|i: int, j: int|
        0 <= i < right.len() && 0 <= j < tail.len() ==> #[trigger] right[i].precedes(
            #[trigger] &tail[j],
        )
    &&& (left + right + tail).to_multiset() == whole.to_multiset()
    &&& forall|x: T| #[trigger] ties(whole, x) == ties(left, x) + ties(right, x) + ties(tail, x)
}

proof fn lemma_take_right<T: Ranked>(whole: Seq<T>, left: Seq<T>, right: Seq<T>, tail: Seq<T>)
    requires
        merge_state(whole, left, right, tail),
        right.len() > 0,
        left.len() > 0 ==> left.last().precedes(&right.last()),
    ensures
        merge_state(whole, left, right.drop_last(), seq![right.last()] + tail),
{
    let y = right.last();
    let rest = right.drop_last();
    let grown = seq![y] + tail;
    T::rank_total(&y, &y);
    assert(right =~= rest.push(y));
    assert(left + right + tail =~= left + rest + grown);
    assert forall|i: int, j: int| 0 <= i < left.len() && 0 <= j < grown.len() implies #[trigger] left[i].precedes(
        #[trigger] &grown[j],
    ) by {
        assert(left[i].precedes(&left[left.len() - 1]));
        T::rank_transitive(&left[i], &left[left.len() - 1], &y);
        if j > 0 {
            assert(grown[j] == tail[j - 1]);
        }
    }
    assert forall|i: int, j: int| 0 <= i < rest.len() && 0 <= j < grown.len() implies #[trigger] rest[i].precedes(
        #[trigger] &grown[j],
    ) by {
        assert(rest[i] == right[i]);
        assert(right[i].precedes(&right[right.len() - 1]));
        if j > 0 {
            assert(grown[j] == tail[j - 1]);
        }
    }
    assert forall|i: int, j: int| 0 <= i <= j < grown.len() implies #[trigger] grown[i].precedes(
        #[trigger] &grown[j],
    ) by {
        if i == 0 && j > 0 {
            assert(right[right.len() - 1].precedes(&tail[j - 1]));
        } else if i > 0 {
            assert(tail[i - 1].precedes(&tail[j - 1]));
        }
    }
    assert forall|x: T| #[trigger] ties(whole, x) == ties(left, x) + ties(rest, x) + ties(grown, x) by {
        lemma_ties_push(rest, y, x);
        lemma_ties_add(seq![y], tail, x);
        lemma_ties_push(Seq::<T>::empty(), y, x);
        assert(Seq::<T>::empty().push(y) =~= seq![y]);
        lemma_ties_none(Seq::<T>::empty(), x);
        assert(ties(left, x) + ties(right, x) + ties(tail, x) =~= ties(left, x) + ties(rest, x)
            + ties(grown, x));
    }
    assert forall|i: int, j: int| 0 <= i <= j < rest.len() implies #[trigger] rest[i].precedes(
        #[trigger] &rest[j],
    ) by {
        assert(right[i].precedes(&right[j]));
    }
}

proof fn lemma_take_left<T: Ranked>(whole: Seq<T>, left: Seq<T>, right: Seq<T>, tail: Seq<T>)
    requires
        merge_state(whole, left, right, tail),
        left.len() > 0,
        right.len() > 0 ==> !left.last().precedes(&right.last()),
    ensures
        merge_state(whole, left.drop_last(), right, seq![left.last()] + tail),
{
    let y = left.last();
    let rest = left.drop_last();
    let grown = seq![y] + tail;
    T::rank_total(&y, &y);
    assert(left =~= rest.push(y));
    assert((left + right + tail).to_multiset() == (rest + right + grown).to_multiset()) by {
        broadcast use vstd::seq_lib::group_to_multiset_ensures;
        let base = rest + right + tail;
        assert(left + right + tail =~= base.insert(rest.len() as int, y));
        assert(rest + right + grown =~= base.insert((rest.len() + right.len()) as int, y));
        vstd::seq_lib::to_multiset_insert(base, rest.len() as int, y);
        vstd::seq_lib::to_multiset_insert(base, (rest.len() + right.len()) as int, y);
    }
    assert forall|j: int| 0 <= j < right.len() implies {
        &&& #[trigger] right[j].precedes(&y)
        &&& !y.precedes(&right[j])
    } by {
        T::rank_total(&y, &right.last());
        assert(right[j].precedes(&right[right.len() - 1]));
        T::rank_transitive(&right[j], &right.last(), &y);
        if y.precedes(&right[j]) {
            T::rank_transitive(&y, &right[j], &right.last());
        }
    }
    assert forall|i: int, j: int| 0 <= i < right.len() && 0 <= j < grown.len() implies #[trigger] right[i].precedes(
        #[trigger] &grown[j],
    ) by {
        if j > 0 {
            assert(grown[j] == tail[j - 1]);
        }
    }
    assert forall|i: int, j: int| 0 <= i < rest.len() && 0 <= j < grown.len() implies #[trigger] rest[i].precedes(
        #[trigger] &grown[j],
    ) by {
        assert(rest[i] == left[i]);
        assert(left[i].precedes(&left[left.len() - 1]));
        if j > 0 {
            assert(grown[j] == tail[j - 1]);
        }
    }
    assert forall|i: int, j: int| 0 <= i <= j < grown.len() implies #[trigger] grown[i].precedes(
        #[trigger] &grown[j],
    ) by {
        if i == 0 && j > 0 {
            assert(left[left.len() - 1].precedes(&tail[j - 1]));
        } else if i > 0 {
            assert(tail[i - 1].precedes(&tail[j - 1]));
        }
    }
    assert forall|x: T| #[trigger] ties(whole, x) == ties(rest, x) + ties(right, x) + ties(grown, x) by {
        lemma_ties_push(rest, y, x);
        lemma_ties_add(seq![y], tail, x);
        lemma_ties_push(Seq::<T>::empty(), y, x);
        assert(Seq::<T>::empty().push(y) =~= seq![y]);
        lemma_ties_none(Seq::<T>::empty(), x);
        if tied(x, y) {
            assert forall|j: int| 0 <= j < right.len() implies !tied(x, #[trigger] right[j]) by {
                assert(right[j].precedes(&y));
                if tied(x, right[j]) {
                    T::rank_transitive(&y, &x, &right[j]);
                }
            }
            lemma_ties_none(right, x);
        }
        assert(ties(left, x) + ties(right, x) + ties(tail, x) =~= ties(rest, x) + ties(right, x)
            + ties(grown, x));
    }
    assert forall|i: int, j: int| 0 <= i <= j < rest.len() implies #[trigger] rest[i].precedes(
        #[trigger] &rest[j],
    ) by {
        assert(left[i].precedes(&left[j]));
    }
}

/// Merges two runs in rank order; among values that share a rank those of `left` come first.
fn merge<T: Ranked>(left: Vec<T>, right: Vec<T>) -> (out: Vec<T>)
    requires
        in_rank_order(left@),
        in_rank_order(right@),
    ensures
        is_stable_sort(left@ + right@, out@),
{
    let mut left = left;
    let mut right = right;
    let ghost whole = left@ + right@;
    let mut backwards: Vec<T> = Vec::new();
    let ghost mut tail = Seq::<T>::empty();
    proof {
        assert(left@ + right@ + tail =~= whole);
        assert forall|x: T| #[trigger] ties(whole, x) == ties(left@, x) + ties(right@, x) + ties(tail, x) by {
            lemma_ties_add(left@, right@, x);
            lemma_ties_none(tail, x);
            assert(ties(whole, x) =~= ties(left@, x) + ties(right@, x) + ties(tail, x));
        }
    }
    while left.len() > 0 || right.len() > 0
        invariant
            merge_state(whole, left@, right@, tail),
            backwards@.reverse() =~= tail,
        decreases left@.len() + right@.len(),
    {
        let from_right: bool = right.len() > 0 && (left.len() == 0 || left[left.len()
            - 1].at_or_before(&right[right.len() - 1]));
        if from_right {
            proof {
                lemma_take_right(whole, left@, right@, tail);
                tail = seq![right@.last()] + tail;
            }
            if let Some(y) = right.pop() {
                backwards.push(y);
            }
        } else {
            proof {
                lemma_take_left(whole, left@, right@, tail);
                tail = seq![left@.last()] + tail;
            }
            if let Some(y) = left.pop() {
                backwards.push(y);
            }
        }
    }
    proof {
        assert(left@ + right@ + tail =~= tail);
        assert forall|x: T| #[trigger] ties(tail, x) == ties(whole, x) by {
            lemma_ties_none(left@, x);
            lemma_ties_none(right@, x);
            assert(ties(left@, x) + ties(right@, x) + ties(tail, x) =~= ties(tail, x));
        }
    }
    let out = reversed(backwards);
    assert(out@ =~= tail);
    out
}

/// The values from the last to the first.
pub fn reversed<T>(items: Vec<T>) -> (out: Vec<T>)
    ensures
        out@ == items@.reverse(),
{
    let ghost all = items@;
    let mut items = items;
    let mut out: Vec<T> = Vec::new();
    while items.len() > 0
        invariant
            out@ + items@.reverse() =~= all.reverse(),
        decreases items@.len(),
    {
        if let Some(item) = items.pop() {
            out.push(item);
        }
    }
    assert(out@ =~= all.reverse());
    out
}

/// Sorts by rank; values that share a rank keep their order.
pub fn stable_sort<T: Ranked>(items: Vec<T>) -> (out: Vec<T>)
    ensures
        is_stable_sort(items@, out@),
    decreases items@.len(),
{
    if items.len() <= 1 {
        proof {
            if items@.len() == 1 {
                T::rank_total(&items@[0], &items@[0]);
            }
        }
        return items;
    }
    let ghost whole = items@;
    let mut front = items;
    let middle: usize = front.len() / 2;
    let back = front.split_off(middle);
    let ghost (a, b) = (front@, back@);
    assert(a + b =~= whole);
    let front = stable_sort(front);
    let back = stable_sort(back);
    let ghost (c, d) = (front@, back@);
    let out = merge(front, back);
    proof {
        vstd::seq_lib::lemma_multiset_commutative(a, b);
        vstd::seq_lib::lemma_multiset_commutative(c, d);
        assert forall|x: T| #[trigger] ties(out@, x) == ties(whole, x) by {
            lemma_ties_add(a, b, x);
            lemma_ties_add(c, d, x);
            assert(ties(c, x) == ties(a, x));
            assert(ties(d, x) == ties(b, x));
            assert(ties(out@, x) == ties(c + d, x));
        }
    }
    out
}

} // verus!
