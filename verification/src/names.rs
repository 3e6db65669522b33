//! Sets of names in ascending order.

use vstd::prelude::*;
use crate::order::{
    lemma_text_order, lemma_text_transitive, same_text, text_at_or_before, text_lt,
};
use crate::text::texts;

verus! {

/// The names ascend strictly.
pub open spec fn names_ascend(names: Seq<Seq<char>>) -> bool {
    forall|i: int, j: int|
        0 <= i < j < names.len() ==> text_lt(#[trigger] names[i], #[trigger] names[j])
}

/// `sorted` are the given names, each once, in ascending order.
pub open spec fn is_sorted_set(names: Seq<Seq<char>>, sorted: Seq<Seq<char>>) -> bool {
    &&& names_ascend(sorted)
    &&& forall|name: Seq<char>| #[trigger] sorted.contains(name) <==> names.contains(name)
}

/// Adds a name to the names seen so far.
pub fn add_name(set: &mut Vec<String>, name: &String, Ghost(seen): Ghost<Seq<Seq<char>>>)
    requires
        is_sorted_set(seen, texts(old(set)@)),
    ensures
        is_sorted_set(seen.push(name@), texts(final(set)@)),
{
    let ghost before = texts(set@);
    let mut i: usize = 0;
    while i < set.len() && !text_at_or_before(name.as_str(), set[i].as_str())
        invariant
            before == texts(set@),
            names_ascend(before),
            i <= set@.len(),
            forall|j: int| 0 <= j < i ==> text_lt(#[trigger] before[j], name@),
        decreases set@.len() - i,
    {
        proof {
            lemma_text_order(name@, set@[i as int]@);
            assert(before[i as int] == set@[i as int]@);
        }
        i = i + 1;
    }
    let present: bool = i < set.len() && same_text(set[i].as_str(), name.as_str());
    proof {
        if i < set@.len() {
            assert(before[i as int] == set@[i as int]@);
        }
    }
    if !present {
        set.insert(i, name.clone());
        proof {
            let after = texts(set@);
            assert(after =~= before.insert(i as int, name@));
            assert forall|j: int| i <= j < before.len() implies text_lt(name@, #[trigger] before[j]) by {
                lemma_text_order(name@, before[i as int]);
                if j > i {
                    assert(text_lt(before[i as int], before[j]));
                    lemma_text_transitive(name@, before[i as int], before[j]);
                    lemma_text_order(before[i as int], before[j]);
                }
            }
            assert forall|a: int, b: int| 0 <= a < b < after.len() implies text_lt(
                #[trigger] after[a],
                #[trigger] after[b],
            ) by {
                if b < i {
                    assert(text_lt(before[a], before[b]));
                } else if b == i {
                    assert(text_lt(before[a], name@));
                } else if a < i {
                    assert(text_lt(before[a], before[b - 1]));
                } else if a == i {
                    assert(text_lt(name@, before[b - 1]));
                } else {
                    assert(text_lt(before[a - 1], before[b - 1]));
                }
            }
        }
    }
    proof {
        let after = texts(set@);
        assert forall|x: Seq<char>| #[trigger] after.contains(x) <==> seen.push(name@).contains(x) by {
            if after.contains(x) {
                let k = choose|k: int| 0 <= k < after.len() && after[k] == x;
                if x == name@ {
                    assert(seen.push(name@)[seen.len() as int] == x);
                } else {
                    assert(before.contains(x)) by {
                        if present {
                            assert(before[k] == x);
                        } else if k < i {
                            assert(before[k] == x);
                        } else {
                            assert(before[k - 1] == x);
                        }
                    }
                    let m = choose|m: int| 0 <= m < seen.len() && seen[m] == x;
                    assert(seen.push(name@)[m] == x);
                }
            }
            if seen.push(name@).contains(x) {
                if x == name@ {
                    assert(after[i as int] == x);
                } else {
                    let m = choose|m: int|
                        0 <= m < seen.push(name@).len() && seen.push(name@)[m] == x;
                    assert(seen[m] == x);
                    assert(before.contains(x));
                    let k = choose|k: int| 0 <= k < before.len() && before[k] == x;
                    if present || k < i {
                        assert(after[k] == x);
                    } else {
                        assert(after[k + 1] == x);
                    }
                }
            }
        }
    }
}

/// Adds names to the names seen so far.
pub fn add_names(set: &mut Vec<String>, names: &Vec<String>, Ghost(seen): Ghost<Seq<Seq<char>>>)
    requires
        is_sorted_set(seen, texts(old(set)@)),
    ensures
        is_sorted_set(seen + texts(names@), texts(final(set)@)),
{
    let mut i: usize = 0;
    assert(seen + texts(names@).take(0) =~= seen);
    while i < names.len()
        invariant
            i <= names@.len(),
            is_sorted_set(seen + texts(names@).take(i as int), texts(set@)),
        decreases names@.len() - i,
    {
        add_name(set, &names[i], Ghost(seen + texts(names@).take(i as int)));
        assert((seen + texts(names@).take(i as int)).push(names@[i as int]@) =~= seen + texts(
            names@,
        ).take(i + 1));
        i = i + 1;
    }
    assert(texts(names@).take(names@.len() as int) =~= texts(names@));
}

/// There is only one way to list a set of names in ascending order.
pub proof fn lemma_names_unique(a: Seq<Seq<char>>, b: Seq<Seq<char>>)
    requires
        names_ascend(a),
        names_ascend(b),
        forall|name: Seq<char>| a.contains(name) <==> b.contains(name),
    ensures
        a == b,
    decreases a.len(),
{
    if a.len() == 0 {
        if b.len() > 0 {
            assert(b.contains(b[0]));
        }
        assert(a =~= b);
    } else {
        assert(a.contains(a.last()));
        assert(b.contains(a.last()));
        assert(b.contains(b.last()));
        assert(a.contains(b.last()));
        let i = choose|i: int| 0 <= i < b.len() && b[i] == a.last();
        let j = choose|j: int| 0 <= j < a.len() && a[j] == b.last();
        if i < b.len() - 1 {
            assert(text_lt(b[i], b[b.len() - 1]));
            if j < a.len() - 1 {
                assert(text_lt(a[j], a[a.len() - 1]));
                lemma_text_order(a.last(), b.last());
            }
        }
        let x = a.drop_last();
        let y = b.drop_last();
        assert forall|name: Seq<char>| x.contains(name) <==> y.contains(name) by {
            if x.contains(name) {
                let k = choose|k: int| 0 <= k < x.len() && x[k] == name;
                assert(text_lt(a[k], a[a.len() - 1]));
                assert(a.contains(a[k]));
                let m = choose|m: int| 0 <= m < b.len() && b[m] == name;
                assert(y[m] == name);
            }
            if y.contains(name) {
                let k = choose|k: int| 0 <= k < y.len() && y[k] == name;
                assert(text_lt(b[k], b[b.len() - 1]));
                assert(b.contains(b[k]));
                let m = choose|m: int| 0 <= m < a.len() && a[m] == name;
                assert(x[m] == name);
            }
        }
        lemma_names_unique(x, y);
        assert(a =~= x.push(a.last()));
        assert(b =~= y.push(b.last()));
    }
}

} // verus!
