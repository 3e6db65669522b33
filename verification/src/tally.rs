//! Adding up usage under keys.
//!
//! A ledger is a list of items, each with a key, four token counts and a cost. Grouping a ledger
//! gives one group per key, in the order in which the keys first appear, with the counts of its
//! items added up and their costs listed in order.

use vstd::prelude::*;
use crate::cost::Cost;
use crate::index::KeyIndex;
use crate::order::{
    key_at_or_before, key_le, key_lt, key_view, lemma_key_order, lemma_key_transitive,
};
use crate::sort::{is_stable_sort, stable_sort, Ranked};

verus! {

/// Four token counts as numbers without bound.
pub struct Counts {
    pub input: nat,
    pub output: nat,
    pub cache_creation: nat,
    pub cache_read: nat,
}

impl Counts {
    /// No tokens.
    pub open spec fn none() -> Counts {
        Counts { input: 0, output: 0, cache_creation: 0, cache_read: 0 }
    }

    /// The counts of both.
    pub open spec fn plus(self, other: Counts) -> Counts {
        Counts {
            input: self.input + other.input,
            output: self.output + other.output,
            cache_creation: self.cache_creation + other.cache_creation,
            cache_read: self.cache_read + other.cache_read,
        }
    }

    /// Each count fits a machine integer.
    pub open spec fn fit(self) -> bool {
        &&& self.input <= u64::MAX
        &&& self.output <= u64::MAX
        &&& self.cache_creation <= u64::MAX
        &&& self.cache_read <= u64::MAX
    }

    /// All tokens together.
    pub open spec fn sum(self) -> nat {
        self.input + self.output + self.cache_creation + self.cache_read
    }
}

/// Token and cost totals of one cell. A stored cell has one amount as its cost; a cell that is
/// being added up has the amounts still to be added, in order.
#[derive(Debug)]
pub struct CellTotals<C> {
    pub input_tokens: u64,
    pub output_tokens: u64,
    pub cache_creation_tokens: u64,
    pub cache_read_tokens: u64,
    pub cost: C,
}

impl<C> CellTotals<C> {
    /// The token counts as numbers.
    pub open spec fn counts(self) -> Counts {
        Counts {
            input: self.input_tokens as nat,
            output: self.output_tokens as nat,
            cache_creation: self.cache_creation_tokens as nat,
            cache_read: self.cache_read_tokens as nat,
        }
    }
}

impl CellTotals<Cost> {
    /// The cell has neither tokens nor a cost.
    pub open spec fn empty(self) -> bool {
        self.counts().sum() == 0 && self.cost.zero()
    }

    /// Whether the cell has neither tokens nor a cost.
    pub fn is_empty(&self) -> (r: bool)
        ensures
            r == self.empty(),
            r == (self.input_tokens == 0 && self.output_tokens == 0 && self.cache_creation_tokens
                == 0 && self.cache_read_tokens == 0 && self.cost.zero()),
    {
        self.input_tokens == 0 && self.output_tokens == 0 && self.cache_creation_tokens == 0
            && self.cache_read_tokens == 0 && self.cost.is_zero()
    }
}

impl CellTotals<Vec<Cost>> {
    /// Totals of nothing.
    pub fn nothing() -> (out: CellTotals<Vec<Cost>>)
        ensures
            out.counts() == Counts::none(),
            out.input_tokens == 0,
            out.output_tokens == 0,
            out.cache_creation_tokens == 0,
            out.cache_read_tokens == 0,
            out.cost@ == Seq::<Cost>::empty(),
    {
        CellTotals {
            input_tokens: 0,
            output_tokens: 0,
            cache_creation_tokens: 0,
            cache_read_tokens: 0,
            cost: Vec::new(),
        }
    }

    /// Whether the counts of the cell can be added.
    pub fn has_room_for(&self, cell: &CellTotals<Cost>) -> (r: bool)
        ensures
            r == self.counts().plus(cell.counts()).fit(),
            r == (self.input_tokens + cell.input_tokens <= u64::MAX && self.output_tokens
                + cell.output_tokens <= u64::MAX && self.cache_creation_tokens
                + cell.cache_creation_tokens <= u64::MAX && self.cache_read_tokens
                + cell.cache_read_tokens <= u64::MAX),
    {
        cell.input_tokens <= u64::MAX - self.input_tokens && cell.output_tokens <= u64::MAX
            - self.output_tokens && cell.cache_creation_tokens <= u64::MAX
            - self.cache_creation_tokens && cell.cache_read_tokens <= u64::MAX
            - self.cache_read_tokens
    }

    /// Adds the counts of a cell, and its cost to the amounts to be added.
    pub fn add_cell(&mut self, cell: &CellTotals<Cost>)
        requires
            old(self).counts().plus(cell.counts()).fit(),
        ensures
            final(self).counts() == old(self).counts().plus(cell.counts()),
            final(self).input_tokens == old(self).input_tokens + cell.input_tokens,
            final(self).output_tokens == old(self).output_tokens + cell.output_tokens,
            final(self).cache_creation_tokens == old(self).cache_creation_tokens + cell.cache_creation_tokens,
            final(self).cache_read_tokens == old(self).cache_read_tokens + cell.cache_read_tokens,
            final(self).cost@ == old(self).cost@.push(cell.cost),
    {
        self.input_tokens = self.input_tokens + cell.input_tokens;
        self.output_tokens = self.output_tokens + cell.output_tokens;
        self.cache_creation_tokens = self.cache_creation_tokens + cell.cache_creation_tokens;
        self.cache_read_tokens = self.cache_read_tokens + cell.cache_read_tokens;
        self.cost.push(cell.cost);
    }

    /// The totals with the sum of their amounts in place of the amounts.
    pub fn settle(self, cost: Cost) -> (out: CellTotals<Cost>)
        ensures
            out.counts() == self.counts(),
            out.input_tokens == self.input_tokens,
            out.output_tokens == self.output_tokens,
            out.cache_creation_tokens == self.cache_creation_tokens,
            out.cache_read_tokens == self.cache_read_tokens,
            out.cost == cost,
    {
        CellTotals {
            input_tokens: self.input_tokens,
            output_tokens: self.output_tokens,
            cache_creation_tokens: self.cache_creation_tokens,
            cache_read_tokens: self.cache_read_tokens,
            cost,
        }
    }
}

/// One item of a ledger.
pub struct Item {
    pub key: Vec<String>,
    pub cell: CellTotals<Cost>,
}

/// The items of one key, added up, and the place of the first of them in the ledger.
pub struct Group {
    pub key: Vec<String>,
    pub totals: CellTotals<Vec<Cost>>,
    pub first: usize,
}

/// An item by its values.
pub struct ItemView {
    pub key: Seq<Seq<char>>,
    pub counts: Counts,
    pub cost: Cost,
}

impl View for Item {
    type V = ItemView;

    open spec fn view(&self) -> ItemView {
        ItemView { key: key_view(self.key@), counts: self.cell.counts(), cost: self.cell.cost }
    }
}

/// The items of a ledger by their values.
pub open spec fn ledger(items: Seq<Item>) -> Seq<ItemView> {
    items.map_values(|item: Item| item@)
}

/// The items of a ledger that have the given key.
pub open spec fn under(items: Seq<ItemView>, key: Seq<Seq<char>>) -> Seq<ItemView> {
    items.filter(|item: ItemView| item.key == key)
}

/// The counts of all items together.
pub open spec fn total(items: Seq<ItemView>) -> Counts
    decreases items.len(),
{
    if items.len() == 0 {
        Counts::none()
    } else {
        total(items.drop_last()).plus(items.last().counts)
    }
}

/// The costs of the items in order.
pub open spec fn costs_of(items: Seq<ItemView>) -> Seq<Cost> {
    items.map_values(|item: ItemView| item.cost)
}

/// The keys of a ledger, each once, in the order of their first appearance.
pub open spec fn keys_of(items: Seq<ItemView>) -> Seq<Seq<Seq<char>>>
    decreases items.len(),
{
    if items.len() == 0 {
        Seq::empty()
    } else {
        let earlier = keys_of(items.drop_last());
        if earlier.contains(items.last().key) {
            earlier
        } else {
            earlier.push(items.last().key)
        }
    }
}

/// The counts of every key fit machine integers.
pub open spec fn totals_fit(items: Seq<ItemView>) -> bool {
    forall|key: Seq<Seq<char>>| #[trigger] total(under(items, key)).fit()
}

/// `group` is what the ledger holds under the key.
pub open spec fn is_group(items: Seq<ItemView>, key: Seq<Seq<char>>, group: Group) -> bool {
    &&& key_view(group.key@) == key
    &&& group.totals.counts() == total(under(items, key))
    &&& group.totals.cost@ == costs_of(under(items, key))
    &&& is_first(items, key, group.first as int)
}

/// The first item of the ledger under the key stands at the place `at`.
pub open spec fn is_first(items: Seq<ItemView>, key: Seq<Seq<char>>, at: int) -> bool {
    &&& 0 <= at < items.len()
    &&& items[at].key == key
    &&& forall|i: int| 0 <= i < at ==> (#[trigger] items[i]).key != key
}

/// `groups` are the groups of the ledger in the order in which the keys first appear.
pub open spec fn is_grouping(items: Seq<ItemView>, groups: Seq<Group>) -> bool {
    &&& groups.len() == keys_of(items).len()
    &&& forall|i: int|
        0 <= i < groups.len() ==> is_group(items, keys_of(items)[i], #[trigger] groups[i])
}

/// Adding an item to the end of a ledger changes what its own key holds, and nothing else.
pub proof fn lemma_under_push(items: Seq<ItemView>, item: ItemView, key: Seq<Seq<char>>)
    ensures
        under(items.push(item), key) == (if item.key == key {
            under(items, key).push(item)
        } else {
            under(items, key)
        }),
        total(items.push(item)) == total(items).plus(item.counts),
        costs_of(items.push(item)) == costs_of(items).push(item.cost),
{
    items.lemma_filter_push(item, |item: ItemView| item.key == key);
    assert(items.push(item).drop_last() =~= items);
    assert(costs_of(items.push(item)) =~= costs_of(items).push(item.cost));
}

/// The keys of a ledger are the keys of its items, each once.
pub proof fn lemma_keys_of(items: Seq<ItemView>)
    ensures
        keys_of(items).no_duplicates(),
        forall|i: int| 0 <= i < items.len() ==> keys_of(items).contains(#[trigger] items[i].key),
        forall|key: Seq<Seq<char>>| #[trigger]
            keys_of(items).contains(key) ==> exists|i: int|
                0 <= i < items.len() && #[trigger] items[i].key == key,
    decreases items.len(),
{
    if items.len() > 0 {
        let before = items.drop_last();
        let last = items.last().key;
        lemma_keys_of(before);
        let earlier = keys_of(before);
        let all = keys_of(items);
        assert forall|i: int| 0 <= i < items.len() implies all.contains(#[trigger] items[i].key) by {
            if i < before.len() {
                assert(before[i].key == items[i].key);
                let j = choose|j: int| 0 <= j < earlier.len() && earlier[j] == items[i].key;
                assert(all[j] == items[i].key);
            } else if !earlier.contains(last) {
                assert(all[earlier.len() as int] == last);
            }
        }
        assert forall|key: Seq<Seq<char>>| #[trigger] all.contains(key) implies exists|i: int|
            0 <= i < items.len() && #[trigger] items[i].key == key by {
            if earlier.contains(key) {
                let i = choose|i: int| 0 <= i < before.len() && #[trigger] before[i].key == key;
                assert(items[i].key == key);
            } else {
                assert(key == last);
                assert(items[items.len() - 1].key == key);
            }
        }
    }
}

/// What a ledger holds under a key never exceeds what a longer one does.
proof fn lemma_total_prefix(items: Seq<ItemView>, n: int, key: Seq<Seq<char>>)
    requires
        0 <= n <= items.len(),
        total(under(items, key)).fit(),
    ensures
        total(under(items.take(n), key)).fit(),
    decreases items.len() - n,
{
    if n < items.len() {
        lemma_total_prefix(items, n + 1, key);
        assert(items.take(n + 1) =~= items.take(n).push(items[n]));
        lemma_under_push(items.take(n), items[n], key);
        if items[n].key == key {
            lemma_under_push(under(items.take(n), key), items[n], key);
        }
    } else {
        assert(items.take(n) =~= items);
    }
}

/// One group per key of the ledger; `None` where the counts of some key do not fit.
pub fn group(items: Vec<Item>) -> (out: Option<Vec<Group>>)
    ensures
        match out {
            Some(groups) => totals_fit(ledger(items@)) && is_grouping(ledger(items@), groups@),
            None => !totals_fit(ledger(items@)),
        },
{
    let ghost all = ledger(items@);
    let mut groups: Vec<Group> = Vec::new();
    let mut index = KeyIndex::new();
    let mut n: usize = 0;
    let ghost mut done = Seq::<ItemView>::empty();
    assert(all.take(0) =~= done);
    proof {
        assert forall|key: Seq<Seq<char>>| #[trigger] total(under(done, key)) == Counts::none() by {
            done.lemma_filter_len(|item: ItemView| item.key == key);
        }
    }
    while n < items.len()
        invariant
            all == ledger(items@),
            n <= items@.len(),
            done == all.take(n as int),
            index.well_formed(),
            is_grouping(done, groups@),
            forall|key: Seq<Seq<char>>| #[trigger] total(under(done, key)).fit(),
            forall|key: Seq<Seq<char>>| #[trigger]
                index@.contains_key(key) <==> keys_of(done).contains(key),
            forall|key: Seq<Seq<char>>| #[trigger]
                index@.contains_key(key) ==> index@[key] < groups@.len() && keys_of(
                    done,
                )[index@[key] as int] == key,
        decreases items@.len() - n,
    {
        let ghost item = items@[n as int]@;
        let ghost next = done.push(item);
        let ghost key = item.key;
        proof {
            assert(next =~= all.take(n + 1));
            assert(next.drop_last() =~= done);
            lemma_keys_of(done);
            assert forall|k: Seq<Seq<char>>| #[trigger] under(next, k) == (if k == key {
                under(done, k).push(item)
            } else {
                under(done, k)
            }) by {
                lemma_under_push(done, item, k);
            }
            lemma_under_push(under(done, key), item, key);
        }
        match index.find(&items[n].key) {
            Some(at) => {
                if !groups[at].totals.has_room_for(&items[n].cell) {
                    proof {
                        assert(is_group(done, keys_of(done)[at as int], groups@[at as int]));
                        assert(!total(under(next, key)).fit());
                        if totals_fit(all) {
                            assert(total(under(all, key)).fit());
                            lemma_total_prefix(all, n + 1, key);
                        }
                    }
                    return None;
                }
                let ghost before = groups@;
                proof {
                    assert(is_group(done, keys_of(done)[at as int], before[at as int]));
                }
                groups[at].totals.add_cell(&items[n].cell);
                proof {
                    assert(keys_of(next) == keys_of(done));
                    assert forall|i: int| 0 <= i < groups@.len() implies is_group(
                        next,
                        keys_of(next)[i],
                        #[trigger] groups@[i],
                    ) by {
                        assert(is_group(done, keys_of(done)[i], before[i]));
                        if i != at {
                            assert(groups@[i] == before[i]);
                            assert(keys_of(done)[i] != key);
                        }
                    }
                }
            },
            None => {
                let slot: usize = groups.len();
                let ghost before = groups@;
                let mut totals = CellTotals::nothing();
                totals.add_cell(&items[n].cell);
                let name = clone_key(&items[n].key);
                let copy = clone_key(&items[n].key);
                groups.push(Group { key: name, totals, first: n });
                index.insert(copy, slot);
                proof {
                    lemma_absent(done, key);
                    assert(keys_of(next) == keys_of(done).push(key));
                    assert(costs_of(under(next, key)) =~= seq![item.cost]);
                    assert forall|i: int| 0 <= i < groups@.len() implies is_group(
                        next,
                        keys_of(next)[i],
                        #[trigger] groups@[i],
                    ) by {
                        if i < before.len() {
                            assert(is_group(done, keys_of(done)[i], before[i]));
                            assert(keys_of(done)[i] != key);
                        }
                    }
                    assert forall|k: Seq<Seq<char>>| #[trigger]
                        index@.contains_key(k) <==> keys_of(next).contains(k) by {
                        if keys_of(done).contains(k) {
                            let j = choose|j: int|
                                0 <= j < keys_of(done).len() && keys_of(done)[j] == k;
                            assert(keys_of(next)[j] == k);
                        }
                        if k == key {
                            assert(keys_of(next)[keys_of(done).len() as int] == k);
                        }
                    }
                }
            },
        }
        proof {
            assert forall|k: Seq<Seq<char>>| #[trigger] total(under(next, k)).fit() by {
                if k == key {
                    let i = choose|i: int| 0 <= i < keys_of(next).len() && keys_of(next)[i] == key;
                    lemma_keys_of(next);
                    assert(next[next.len() - 1].key == key);
                    assert(is_group(next, keys_of(next)[i], groups@[i]));
                } else {
                    assert(total(under(done, k)).fit());
                }
            }
            done = next;
        }
        n = n + 1;
    }
    assert(all.take(n as int) =~= all);
    Some(groups)
}

impl Group {
    /// The key by the characters of its components.
    pub open spec fn name(self) -> Seq<Seq<char>> {
        key_view(self.key@)
    }
}

impl Ranked for Group {
    open spec fn precedes(&self, other: &Self) -> bool {
        key_le(self.name(), other.name())
    }

    proof fn rank_total(a: &Self, b: &Self) {
        lemma_key_order(a.name(), b.name());
    }

    proof fn rank_transitive(a: &Self, b: &Self, c: &Self) {
        lemma_key_transitive(a.name(), b.name(), c.name());
    }

    fn at_or_before(&self, other: &Self) -> (r: bool) {
        key_at_or_before(&self.key, &other.key)
    }
}

/// `groups` are the groups of the ledger in the order of their keys.
pub open spec fn is_sorted_grouping(items: Seq<ItemView>, groups: Seq<Group>) -> bool {
    &&& groups.len() == keys_of(items).len()
    &&& forall|i: int|
        0 <= i < groups.len() ==> is_group(items, groups[i].name(), #[trigger] groups[i])
    &&& forall|i: int, j: int|
        0 <= i < j < groups.len() ==> key_lt(
            #[trigger] groups[i].name(),
            #[trigger] groups[j].name(),
        )
    &&& forall|key: Seq<Seq<char>>| #[trigger]
        keys_of(items).contains(key) <==> exists|i: int|
            0 <= i < groups.len() && #[trigger] groups[i].name() == key
}

proof fn lemma_sorted_grouping(items: Seq<ItemView>, groups: Seq<Group>, sorted: Seq<Group>)
    requires
        is_grouping(items, groups),
        is_stable_sort(groups, sorted),
    ensures
        is_sorted_grouping(items, sorted),
{
    broadcast use {vstd::seq_lib::group_to_multiset_ensures, vstd::multiset::group_multiset_axioms};

    let keys = keys_of(items);
    lemma_keys_of(items);
    assert forall|i: int, j: int| 0 <= i < groups.len() && 0 <= j < groups.len() && i != j implies groups[i]
        != groups[j] by {
        assert(is_group(items, keys[i], groups[i]));
        assert(is_group(items, keys[j], groups[j]));
    }
    groups.lemma_multiset_has_no_duplicates();
    sorted.lemma_multiset_has_no_duplicates_conv();
    assert(sorted.len() == groups.len()) by {
        assert(sorted.to_multiset().len() == sorted.len());
        assert(groups.to_multiset().len() == groups.len());
    }
    assert forall|i: int| 0 <= i < sorted.len() implies exists|a: int|
        0 <= a < groups.len() && #[trigger] groups[a] == #[trigger] sorted[i] by {
        assert(sorted.contains(sorted[i]));
        assert(sorted.to_multiset().count(sorted[i]) > 0);
        assert(groups.contains(sorted[i]));
    }
    assert forall|i: int| 0 <= i < sorted.len() implies is_group(
        items,
        sorted[i].name(),
        #[trigger] sorted[i],
    ) by {
        let a = choose|a: int| 0 <= a < groups.len() && #[trigger] groups[a] == sorted[i];
        assert(is_group(items, keys[a], groups[a]));
    }
    assert forall|i: int, j: int| 0 <= i < j < sorted.len() implies key_lt(
        #[trigger] sorted[i].name(),
        #[trigger] sorted[j].name(),
    ) by {
        assert(sorted[i].precedes(&sorted[j]));
        if sorted[i].name() == sorted[j].name() {
            let a = choose|a: int| 0 <= a < groups.len() && #[trigger] groups[a] == sorted[i];
            let b = choose|b: int| 0 <= b < groups.len() && #[trigger] groups[b] == sorted[j];
            assert(is_group(items, keys[a], groups[a]));
            assert(is_group(items, keys[b], groups[b]));
            assert(a == b);
        }
    }
    assert forall|key: Seq<Seq<char>>| #[trigger] keys.contains(key) <==> exists|i: int|
        0 <= i < sorted.len() && #[trigger] sorted[i].name() == key by {
        if keys.contains(key) {
            let a = choose|a: int| 0 <= a < keys.len() && keys[a] == key;
            assert(is_group(items, keys[a], groups[a]));
            assert(groups.contains(groups[a]));
            assert(groups.to_multiset().count(groups[a]) > 0);
            assert(sorted.contains(groups[a]));
            let i = choose|i: int| 0 <= i < sorted.len() && sorted[i] == groups[a];
            assert(sorted[i].name() == key);
        }
        if exists|i: int| 0 <= i < sorted.len() && #[trigger] sorted[i].name() == key {
            let i = choose|i: int| 0 <= i < sorted.len() && #[trigger] sorted[i].name() == key;
            let a = choose|a: int| 0 <= a < groups.len() && #[trigger] groups[a] == sorted[i];
            assert(is_group(items, keys[a], groups[a]));
            assert(keys[a] == key);
        }
    }
}

/// One group per key of the ledger in the order of the keys; `None` where the counts of some key
/// do not fit.
pub fn group_sorted(items: Vec<Item>) -> (out: Option<Vec<Group>>)
    ensures
        match out {
            Some(groups) => totals_fit(ledger(items@)) && is_sorted_grouping(
                ledger(items@),
                groups@,
            ),
            None => !totals_fit(ledger(items@)),
        },
{
    match group(items) {
        Some(groups) => {
            let sorted = stable_sort(groups);
            proof {
                lemma_sorted_grouping(ledger(items@), groups@, sorted@);
            }
            Some(sorted)
        },
        None => None,
    }
}

/// A key that does not appear has nothing under it.
proof fn lemma_absent(items: Seq<ItemView>, key: Seq<Seq<char>>)
    requires
        !keys_of(items).contains(key),
    ensures
        under(items, key) == Seq::<ItemView>::empty(),
{
    lemma_keys_of(items);
    items.lemma_all_neg_filter_empty(|item: ItemView| item.key == key);
    assert(under(items, key) =~= Seq::<ItemView>::empty());
}

/// A copy of a key.
pub fn clone_key(key: &Vec<String>) -> (out: Vec<String>)
    ensures
        out@ == key@,
{
    let mut out: Vec<String> = Vec::new();
    let mut i: usize = 0;
    while i < key.len()
        invariant
            i <= key@.len(),
            out@ =~= key@.take(i as int),
        decreases key@.len() - i,
    {
        out.push(key[i].clone());
        i = i + 1;
    }
    assert(key@.take(key@.len() as int) =~= key@);
    out
}

} // verus!
