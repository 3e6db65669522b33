//! The order of merged and collapsed rows, and that each stands once.

use vstd::prelude::*;
use crate::cost::Cost;
use crate::order::{key_le, lemma_text_order, text_lt};
use crate::sort::{is_stable_sort, Ranked};
use crate::sync::merge::{
    is_collapse, is_collapsed_row, is_merge, machine_item, machine_items,
};
use crate::sync::snapshot::MergedRow;
use crate::tally::{keys_of, lemma_keys_of, ItemView};

verus! {

/// A row comes before another: by its date, then by its machine, then by its agent.
pub open spec fn comes_before<C>(a: MergedRow<C>, b: MergedRow<C>) -> bool {
    ||| text_lt(a.date@, b.date@)
    ||| a.date@ == b.date@ && text_lt(a.machine@, b.machine@)
    ||| a.date@ == b.date@ && a.machine@ == b.machine@ && text_lt(a.agent@, b.agent@)
}

/// The rows have the same date, machine and agent.
pub open spec fn share_their_name<C>(a: MergedRow<C>, b: MergedRow<C>) -> bool {
    a.date@ == b.date@ && a.machine@ == b.machine@ && a.agent@ == b.agent@
}

proof fn lemma_names<C>(a: MergedRow<C>, b: MergedRow<C>)
    ensures
        key_le(a.name(), b.name()) <==> comes_before(a, b) || share_their_name(a, b),
        a.name() == b.name() <==> share_their_name(a, b),
{
    reveal_with_fuel(key_le, 4);
    let x = a.name();
    let y = b.name();
    assert(x.drop_first() =~= seq![a.machine@, a.agent@]);
    assert(y.drop_first() =~= seq![b.machine@, b.agent@]);
    assert(x.drop_first().drop_first() =~= seq![a.agent@]);
    assert(y.drop_first().drop_first() =~= seq![b.agent@]);
    lemma_text_order(a.date@, b.date@);
    lemma_text_order(a.machine@, b.machine@);
    lemma_text_order(a.agent@, b.agent@);
    if share_their_name(a, b) {
        assert(x =~= y);
    }
    if x == y {
        assert(x[0] == y[0] && x[1] == y[1] && x[2] == y[2]);
    }
}

/// Merged rows stand by date, then by machine, then by agent, and no two have all three the same.
pub proof fn merged_rows_ascend(
    items: Seq<ItemView>,
    rows: Seq<MergedRow<Vec<Cost>>>,
    i: int,
    j: int,
)
    requires
        is_merge(items, rows),
        0 <= i < j < rows.len(),
    ensures
        comes_before(rows[i], rows[j]),
        !share_their_name(rows[i], rows[j]),
{
    assert(crate::order::key_lt(rows[i].name(), rows[j].name()));
    lemma_names(rows[i], rows[j]);
}

/// Sorting keeps every row and brings the rows into the order of date, machine and agent.
pub proof fn sorted_rows_ascend(
    input: Seq<MergedRow<Cost>>,
    output: Seq<MergedRow<Cost>>,
    i: int,
    j: int,
)
    requires
        is_stable_sort(input, output),
        0 <= i < j < output.len(),
    ensures
        output.to_multiset() == input.to_multiset(),
        comes_before(output[i], output[j]) || share_their_name(output[i], output[j]),
{
    assert(output[i].precedes(&output[j]));
    lemma_names(output[i], output[j]);
}

/// The rows are of one date and one agent.
pub open spec fn share_date_and_agent<C, D>(a: MergedRow<C>, b: MergedRow<D>) -> bool {
    a.date@ == b.date@ && a.agent@ == b.agent@
}

/// Every row goes into one collapsed row of its date and agent, and into no other.
pub proof fn every_row_is_collapsed_once(
    rows: Seq<MergedRow<Cost>>,
    out: Seq<MergedRow<Vec<Cost>>>,
    r: int,
)
    requires
        is_collapse(rows, out),
        0 <= r < rows.len(),
    ensures
        exists|i: int| 0 <= i < out.len() && share_date_and_agent(#[trigger] out[i], rows[r]),
        forall|i: int, j: int|
            0 <= i < out.len() && 0 <= j < out.len() && share_date_and_agent(
                #[trigger] out[i],
                rows[r],
            ) && share_date_and_agent(#[trigger] out[j], rows[r]) ==> i == j,
{
    let items = machine_items(rows);
    let keys = keys_of(items);
    lemma_keys_of(items);
    let key = seq![rows[r].date@, rows[r].agent@];
    assert(items[r] == machine_item(rows[r]));
    assert(items[r].key =~= key);
    assert(keys.contains(items[r].key));
    let k = choose|k: int| 0 <= k < keys.len() && keys[k] == key;
    assert(is_collapsed_row(rows, keys[k], out[k]));
    assert(seq![out[k].date@, out[k].agent@][0] == key[0] && seq![
        out[k].date@,
        out[k].agent@,
    ][1] == key[1]);
    assert(share_date_and_agent(out[k], rows[r]));
    assert forall|i: int, j: int|
        0 <= i < out.len() && 0 <= j < out.len() && share_date_and_agent(#[trigger] out[i], rows[r])
            && share_date_and_agent(#[trigger] out[j], rows[r]) implies i == j by {
        assert(is_collapsed_row(rows, keys[i], out[i]));
        assert(is_collapsed_row(rows, keys[j], out[j]));
        assert(keys[i] =~= key);
        assert(keys[j] =~= key);
    }
}

/// The first row of a date and an agent.
pub open spec fn starts(rows: Seq<MergedRow<Cost>>, at: int, out: MergedRow<Vec<Cost>>) -> bool {
    &&& 0 <= at < rows.len()
    &&& share_date_and_agent(rows[at], out)
    &&& forall|i: int| 0 <= i < at ==> !share_date_and_agent(#[trigger] rows[i], out)
}

proof fn lemma_keys_in_order(items: Seq<ItemView>, i: int, j: int, a: int, b: int)
    requires
        0 <= i < j < keys_of(items).len(),
        crate::tally::is_first(items, keys_of(items)[i], a),
        crate::tally::is_first(items, keys_of(items)[j], b),
    ensures
        a < b,
    decreases items.len(),
{
    let rest = items.drop_last();
    let earlier = keys_of(rest);
    let keys = keys_of(items);
    let n = items.len() - 1;
    lemma_keys_of(items);
    lemma_keys_of(rest);
    assert(earlier.len() <= keys.len() <= earlier.len() + 1);
    assert(forall|k: int| 0 <= k < earlier.len() ==> keys[k] == earlier[k]);
    assert(earlier.contains(earlier[i]));
    let x = choose|x: int| 0 <= x < rest.len() && #[trigger] rest[x].key == earlier[i];
    assert(items[x].key == keys[i]);
    assert(a <= x);
    if j < earlier.len() {
        assert(earlier.contains(earlier[j]));
        let y = choose|y: int| 0 <= y < rest.len() && #[trigger] rest[y].key == earlier[j];
        assert(items[y].key == keys[j]);
        assert(b <= y);
        assert(forall|k: int| 0 <= k < rest.len() ==> rest[k] == items[k]);
        lemma_keys_in_order(rest, i, j, a, b);
    } else {
        assert(!earlier.contains(items.last().key));
        assert(keys[j] == items.last().key);
        if b < n {
            assert(rest[b].key == items[b].key);
            assert(earlier.contains(rest[b].key));
        }
    }
}

/// Collapsed rows stand in the order in which their dates and agents first appear.
pub proof fn collapsed_rows_keep_their_order(
    rows: Seq<MergedRow<Cost>>,
    out: Seq<MergedRow<Vec<Cost>>>,
    i: int,
    j: int,
    a: int,
    b: int,
)
    requires
        is_collapse(rows, out),
        0 <= i < j < out.len(),
        starts(rows, a, out[i]),
        starts(rows, b, out[j]),
    ensures
        a < b,
{
    let items = machine_items(rows);
    let keys = keys_of(items);
    lemma_starts(rows, keys[i], out[i], a);
    lemma_starts(rows, keys[j], out[j], b);
    lemma_keys_in_order(items, i, j, a, b);
}

proof fn lemma_starts(
    rows: Seq<MergedRow<Cost>>,
    key: Seq<Seq<char>>,
    out: MergedRow<Vec<Cost>>,
    at: int,
)
    requires
        is_collapsed_row(rows, key, out),
        starts(rows, at, out),
    ensures
        crate::tally::is_first(machine_items(rows), key, at),
{
    let items = machine_items(rows);
    assert(items[at] == machine_item(rows[at]));
    assert(items[at].key =~= key);
    assert forall|i: int| 0 <= i < at implies (#[trigger] items[i]).key != key by {
        assert(items[i] == machine_item(rows[i]));
        assert(!share_date_and_agent(rows[i], out));
        if items[i].key == key {
            assert(items[i].key[0] == key[0] && items[i].key[1] == key[1]);
        }
    }
}

} // verus!
