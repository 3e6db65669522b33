//! A sorted index from keys, which are lists of texts, to positions.

use vstd::prelude::*;
use crate::order::{
    key_at_or_before, key_le, key_lt, key_view, lemma_key_order, lemma_key_transitive,
};

verus! {

/// Keys in strictly ascending order, each with the position it stands for.
pub struct KeyIndex {
    keys: Vec<Vec<String>>,
    slots: Vec<usize>,
}

impl KeyIndex {
    /// The key at a place of the index.
    pub closed spec fn key(&self, i: int) -> Seq<Seq<char>> {
        key_view(self.keys@[i]@)
    }

    /// The place of a key in the index, where it is one of its keys.
    pub closed spec fn place(&self, key: Seq<Seq<char>>) -> int {
        choose|i: int| 0 <= i < self.keys@.len() && self.key(i) == key
    }

    /// The keys ascend strictly, and each has a position.
    pub closed spec fn well_formed(&self) -> bool {
        &&& self.keys@.len() == self.slots@.len()
        &&& forall|i: int, j: int|
            0 <= i < j < self.keys@.len() ==> key_lt(#[trigger] self.key(i), #[trigger] self.key(j))
    }
}

impl View for KeyIndex {
    type V = Map<Seq<Seq<char>>, usize>;

    closed spec fn view(&self) -> Map<Seq<Seq<char>>, usize> {
        Map::new(
            |key: Seq<Seq<char>>| exists|i: int| 0 <= i < self.keys@.len() && self.key(i) == key,
            |key: Seq<Seq<char>>| self.slots@[self.place(key)],
        )
    }
}

impl KeyIndex {
    /// An index without keys.
    pub fn new() -> (out: KeyIndex)
        ensures
            out.well_formed(),
            out@ == Map::<Seq<Seq<char>>, usize>::empty(),
    {
        let out = KeyIndex { keys: Vec::new(), slots: Vec::new() };
        assert(out@ =~= Map::<Seq<Seq<char>>, usize>::empty());
        out
    }

    proof fn lemma_entry(&self, i: int)
        requires
            self.well_formed(),
            0 <= i < self.keys@.len(),
        ensures
            self@.contains_key(self.key(i)),
            self@[self.key(i)] == self.slots@[i],
    {
        let j = self.place(self.key(i));
        assert(0 <= j < self.keys@.len() && self.key(j) == self.key(i));
        if i < j {
            assert(key_lt(self.key(i), self.key(j)));
        } else if j < i {
            assert(key_lt(self.key(j), self.key(i)));
        }
    }

    /// The first place whose key does not come before `key`.
    fn lower_bound(&self, key: &Vec<String>) -> (at: usize)
        requires
            self.well_formed(),
        ensures
            at <= self.keys@.len(),
            forall|i: int| 0 <= i < at ==> key_lt(#[trigger] self.key(i), key_view(key@)),
            forall|i: int|
                at <= i < self.keys@.len() ==> key_le(key_view(key@), #[trigger] self.key(i)),
    {
        let ghost k = key_view(key@);
        let mut low: usize = 0;
        let mut high: usize = self.keys.len();
        while low < high
            invariant
                self.well_formed(),
                k == key_view(key@),
                low <= high <= self.keys@.len(),
                forall|i: int| 0 <= i < low ==> key_lt(#[trigger] self.key(i), k),
                forall|i: int| high <= i < self.keys@.len() ==> key_le(k, #[trigger] self.key(i)),
            decreases high - low,
        {
            let middle: usize = low + (high - low) / 2;
            if key_at_or_before(key, &self.keys[middle]) {
                proof {
                    assert(key_le(k, self.key(middle as int)));
                    assert forall|i: int| middle <= i < self.keys@.len() implies key_le(
                        k,
                        #[trigger] self.key(i),
                    ) by {
                        if middle < i {
                            assert(key_lt(self.key(middle as int), self.key(i)));
                            lemma_key_transitive(k, self.key(middle as int), self.key(i));
                        }
                    }
                }
                high = middle;
            } else {
                proof {
                    let m = self.key(middle as int);
                    lemma_key_order(k, m);
                    assert forall|i: int| 0 <= i <= middle implies key_lt(#[trigger] self.key(i), k) by {
                        if i < middle {
                            assert(key_lt(self.key(i), m));
                            lemma_key_transitive(self.key(i), m, k);
                            if self.key(i) == k {
                                lemma_key_order(k, m);
                            }
                        }
                    }
                }
                low = middle + 1;
            }
        }
        low
    }

    /// The position a key stands for, where the index has the key.
    pub fn find(&self, key: &Vec<String>) -> (out: Option<usize>)
        requires
            self.well_formed(),
        ensures
            match out {
                Some(slot) => self@.contains_key(key_view(key@)) && self@[key_view(key@)] == slot,
                None => !self@.contains_key(key_view(key@)),
            },
    {
        let at: usize = self.lower_bound(key);
        let ghost k = key_view(key@);
        proof {
            assert forall|i: int| 0 <= i < self.keys@.len() && i != at implies #[trigger] self.key(i) != k by {
                if i > at {
                    assert(key_le(k, self.key(at as int)));
                    assert(key_lt(self.key(at as int), self.key(i)));
                    lemma_key_order(k, self.key(at as int));
                }
            }
        }
        if at < self.keys.len() && key_at_or_before(&self.keys[at], key) {
            proof {
                lemma_key_order(k, self.key(at as int));
                self.lemma_entry(at as int);
            }
            Some(self.slots[at])
        } else {
            proof {
                if at < self.keys@.len() {
                    lemma_key_order(k, k);
                    assert(self.key(at as int) != k);
                }
            }
            None
        }
    }

    /// Adds a key that the index does not have yet.
    pub fn insert(&mut self, key: Vec<String>, slot: usize)
        requires
            old(self).well_formed(),
            !old(self)@.contains_key(key_view(key@)),
        ensures
            final(self).well_formed(),
            final(self)@ == old(self)@.insert(key_view(key@), slot),
    {
        let at: usize = self.lower_bound(&key);
        let ghost k = key_view(key@);
        let ghost before = *self;
        self.keys.insert(at, key);
        self.slots.insert(at, slot);
        proof {
            assert(forall|i: int| 0 <= i < at ==> #[trigger] self.key(i) == before.key(i));
            assert(self.key(at as int) == k);
            assert forall|i: int| at < i < self.keys@.len() implies #[trigger] self.key(i) == before.key(i - 1) by {}
            assert forall|i: int| at <= i < before.keys@.len() implies key_lt(k, #[trigger] before.key(i)) by {
                before.lemma_entry(i);
                assert(before.key(i) != k);
            }
            assert forall|i: int, j: int| 0 <= i < j < self.keys@.len() implies key_lt(
                #[trigger] self.key(i),
                #[trigger] self.key(j),
            ) by {
                if j < at {
                    assert(key_lt(before.key(i), before.key(j)));
                } else if j == at {
                    assert(key_lt(before.key(i), k));
                } else if i < at {
                    assert(key_lt(before.key(i), before.key(j - 1)));
                } else if i == at {
                    assert(key_lt(k, before.key(j - 1)));
                } else {
                    assert(key_lt(before.key(i - 1), before.key(j - 1)));
                }
            }
            let grown = before@.insert(k, slot);
            assert forall|x: Seq<Seq<char>>| self@.contains_key(x) <==> #[trigger] grown.contains_key(x) by {
                if self@.contains_key(x) {
                    let i = self.place(x);
                    assert(0 <= i < self.keys@.len() && self.key(i) == x);
                    if i < at {
                        before.lemma_entry(i);
                    } else if i > at {
                        before.lemma_entry(i - 1);
                    }
                }
                if grown.contains_key(x) {
                    if x == k {
                        self.lemma_entry(at as int);
                    } else {
                        let i = before.place(x);
                        assert(0 <= i < before.keys@.len() && before.key(i) == x);
                        self.lemma_entry(if i < at { i } else { i + 1 });
                    }
                }
            }
            assert forall|x: Seq<Seq<char>>| #[trigger] grown.contains_key(x) implies self@[x] == grown[x] by {
                if x == k {
                    self.lemma_entry(at as int);
                } else {
                    let i = before.place(x);
                    assert(0 <= i < before.keys@.len() && before.key(i) == x);
                    before.lemma_entry(i);
                    self.lemma_entry(if i < at { i } else { i + 1 });
                }
            }
            assert(self@ =~= grown);
        }
    }
}

} // verus!
