//! What holds of publishing and merging as a whole.

use vstd::prelude::*;
use crate::all::rows::SyncUsageRow;
use crate::cost::Cost;
use crate::order::{key_lt, lemma_key_order};
use crate::sync::merge::{
    cell_item, cell_items, day_items, is_collapse, is_collapsed_row, is_merge, is_merged_row,
    machine_items, snapshot_items,
};
use crate::sync::report::rows_total;
use crate::sync::snapshot::{
    agent_text, cell_keys_are_unambiguous, cells_in_order, day_key, days_in_order, has_cell,
    is_day_cell, is_day_map, row_item, row_items, Day, MachineSnapshot, MergedRow, KEY_SEPARATOR,
};
use crate::tally::{keys_of, lemma_keys_of, total, under, CellTotals, Counts, ItemView};

verus! {

/// The items whose key satisfies `pred`.
pub open spec fn matching(
    items: Seq<ItemView>,
    pred: spec_fn(Seq<Seq<char>>) -> bool,
) -> Seq<ItemView> {
    items.filter(|item: ItemView| pred(item.key))
}

/// The totals under those of the given keys that satisfy `pred`, added up.
pub open spec fn sum_over(
    keys: Seq<Seq<Seq<char>>>,
    items: Seq<ItemView>,
    pred: spec_fn(Seq<Seq<char>>) -> bool,
) -> Counts
    decreases keys.len(),
{
    if keys.len() == 0 {
        Counts::none()
    } else {
        sum_over(keys.drop_last(), items, pred).plus(
            if pred(keys.last()) {
                total(under(items, keys.last()))
            } else {
                Counts::none()
            },
        )
    }
}

proof fn lemma_total_push(items: Seq<ItemView>, item: ItemView)
    ensures
        total(items.push(item)) == total(items).plus(item.counts),
{
    assert(items.push(item).drop_last() =~= items);
}

proof fn lemma_total_add(a: Seq<ItemView>, b: Seq<ItemView>)
    ensures
        total(a + b) == total(a).plus(total(b)),
    decreases b.len(),
{
    if b.len() == 0 {
        assert(a + b =~= a);
    } else {
        lemma_total_add(a, b.drop_last());
        assert((a + b).drop_last() =~= a + b.drop_last());
        assert((a + b).last() == b.last());
    }
}

proof fn lemma_under_add(a: Seq<ItemView>, b: Seq<ItemView>, key: Seq<Seq<char>>)
    ensures
        total(under(a + b, key)) == total(under(a, key)).plus(total(under(b, key))),
{
    Seq::filter_distributes_over_add(a, b, |item: ItemView| item.key == key);
    lemma_total_add(under(a, key), under(b, key));
}

proof fn lemma_sum_over_push(
    keys: Seq<Seq<Seq<char>>>,
    items: Seq<ItemView>,
    item: ItemView,
    pred: spec_fn(Seq<Seq<char>>) -> bool,
)
    requires
        keys.no_duplicates(),
    ensures
        sum_over(keys, items.push(item), pred) == sum_over(keys, items, pred).plus(
            if keys.contains(item.key) && pred(item.key) {
                item.counts
            } else {
                Counts::none()
            },
        ),
    decreases keys.len(),
{
    if keys.len() > 0 {
        let rest = keys.drop_last();
        let last = keys.last();
        lemma_sum_over_push(rest, items, item, pred);
        crate::tally::lemma_under_push(items, item, last);
        if item.key == last {
            lemma_total_push(under(items, last), item);
            assert(!rest.contains(item.key));
            assert(keys[keys.len() - 1] == item.key);
            assert(keys.contains(item.key));
        } else {
            assert(keys.contains(item.key) <==> rest.contains(item.key)) by {
                if keys.contains(item.key) {
                    let i = choose|i: int| 0 <= i < keys.len() && keys[i] == item.key;
                    assert(rest[i] == item.key);
                }
                if rest.contains(item.key) {
                    let i = choose|i: int| 0 <= i < rest.len() && rest[i] == item.key;
                    assert(keys[i] == item.key);
                }
            }
        }
    }
}

proof fn lemma_sum_over_nothing(
    keys: Seq<Seq<Seq<char>>>,
    pred: spec_fn(Seq<Seq<char>>) -> bool,
)
    ensures
        sum_over(keys, Seq::empty(), pred) == Counts::none(),
    decreases keys.len(),
{
    if keys.len() > 0 {
        lemma_sum_over_nothing(keys.drop_last(), pred);
        let key = keys.last();
        Seq::<ItemView>::empty().lemma_filter_len(|item: ItemView| item.key == key);
    }
}

/// Where every key of the ledger is listed once, the totals under the listed keys add up to the
/// totals of the items.
proof fn lemma_sum_over(
    keys: Seq<Seq<Seq<char>>>,
    items: Seq<ItemView>,
    pred: spec_fn(Seq<Seq<char>>) -> bool,
)
    requires
        keys.no_duplicates(),
        forall|i: int| 0 <= i < items.len() ==> keys.contains(#[trigger] items[i].key),
    ensures
        sum_over(keys, items, pred) == total(matching(items, pred)),
    decreases items.len(),
{
    if items.len() == 0 {
        assert(items =~= Seq::empty());
        lemma_sum_over_nothing(keys, pred);
        items.lemma_filter_len(|item: ItemView| pred(item.key));
    } else {
        let rest = items.drop_last();
        let item = items.last();
        assert(items =~= rest.push(item));
        assert forall|i: int| 0 <= i < rest.len() implies keys.contains(#[trigger] rest[i].key) by {
            assert(rest[i].key == items[i].key);
        }
        lemma_sum_over(keys, rest, pred);
        lemma_sum_over_push(keys, rest, item, pred);
        rest.lemma_filter_push(item, |item: ItemView| pred(item.key));
        assert(items[items.len() - 1].key == item.key);
        if pred(item.key) {
            lemma_total_push(matching(rest, pred), item);
        }
    }
}

proof fn lemma_matching_all(items: Seq<ItemView>)
    ensures
        matching(items, |key: Seq<Seq<char>>| true) == items,
    decreases items.len(),
{
    let pred = |key: Seq<Seq<char>>| true;
    reveal(Seq::filter);
    if items.len() > 0 {
        lemma_matching_all(items.drop_last());
        items.drop_last().lemma_filter_push(items.last(), |item: ItemView| pred(item.key));
        assert(items =~= items.drop_last().push(items.last()));
    }
}

/// The names of rows.
spec fn row_names<C>(rows: Seq<MergedRow<C>>) -> Seq<Seq<Seq<char>>> {
    rows.map_values(|row: MergedRow<C>| row.name())
}

proof fn lemma_merge_sum(items: Seq<ItemView>, rows: Seq<MergedRow<Vec<Cost>>>, n: int)
    requires
        0 <= n <= rows.len(),
        forall|i: int| 0 <= i < rows.len() ==> is_merged_row(items, #[trigger] rows[i]),
    ensures
        rows_total(rows.take(n)) == sum_over(
            row_names(rows).take(n),
            items,
            |key: Seq<Seq<char>>| true,
        ),
    decreases n,
{
    if n > 0 {
        lemma_merge_sum(items, rows, n - 1);
        assert(rows.take(n).drop_last() =~= rows.take(n - 1));
        assert(row_names(rows).take(n).drop_last() =~= row_names(rows).take(n - 1));
        assert(is_merged_row(items, rows[n - 1]));
    }
}

/// Merging loses and invents no tokens: the merged rows add up to what the snapshots contribute.
pub proof fn merging_keeps_every_token(
    snapshots: Seq<MachineSnapshot>,
    rows: Seq<MergedRow<Vec<Cost>>>,
)
    requires
        is_merge(snapshot_items(snapshots), rows),
    ensures
        rows_total(rows) == total(snapshot_items(snapshots)),
        rows_total(rows) == snapshots_total(snapshots),
{
    let items = snapshot_items(snapshots);
    let names = row_names(rows);
    lemma_keys_of(items);
    assert forall|i: int, j: int| 0 <= i < names.len() && 0 <= j < names.len() && i != j implies names[i]
        != names[j] by {
        if i < j {
            assert(key_lt(rows[i].name(), rows[j].name()));
        } else {
            assert(key_lt(rows[j].name(), rows[i].name()));
        }
    }
    assert forall|i: int| 0 <= i < items.len() implies names.contains(#[trigger] items[i].key) by {
        assert(keys_of(items).contains(items[i].key));
        let j = choose|j: int| 0 <= j < rows.len() && #[trigger] rows[j].name() == items[i].key;
        assert(names[j] == items[i].key);
    }
    let everything = |key: Seq<Seq<char>>| true;
    lemma_merge_sum(items, rows, rows.len() as int);
    assert(rows.take(rows.len() as int) =~= rows);
    assert(names.take(rows.len() as int) =~= names);
    lemma_sum_over(names, items, everything);
    lemma_matching_all(items);
    lemma_snapshots_total(snapshots);
}

/// The token counts of all cells together, empty ones too.
pub open spec fn cells_total(cells: Seq<(String, CellTotals<Cost>)>) -> Counts
    decreases cells.len(),
{
    if cells.len() == 0 {
        Counts::none()
    } else {
        cells_total(cells.drop_last()).plus(cells.last().1.counts())
    }
}

/// The token counts of all days together.
pub open spec fn days_total(days: Seq<Day<Cost>>) -> Counts
    decreases days.len(),
{
    if days.len() == 0 {
        Counts::none()
    } else {
        days_total(days.drop_last()).plus(cells_total(days.last().cells@))
    }
}

/// The token counts of all snapshots together.
pub open spec fn snapshots_total(snapshots: Seq<MachineSnapshot>) -> Counts
    decreases snapshots.len(),
{
    if snapshots.len() == 0 {
        Counts::none()
    } else {
        snapshots_total(snapshots.drop_last()).plus(days_total(snapshots.last().days@))
    }
}

proof fn lemma_cells_total(
    machine: Seq<char>,
    date: Seq<char>,
    cells: Seq<(String, CellTotals<Cost>)>,
)
    ensures
        total(cell_items(machine, date, cells)) == cells_total(cells),
    decreases cells.len(),
{
    if cells.len() > 0 {
        lemma_cells_total(machine, date, cells.drop_last());
        let earlier = cell_items(machine, date, cells.drop_last());
        lemma_total_push(earlier, cell_item(machine, date, cells.last().0@, cells.last().1));
    }
}

proof fn lemma_days_total(machine: Seq<char>, days: Seq<Day<Cost>>)
    ensures
        total(day_items(machine, days)) == days_total(days),
    decreases days.len(),
{
    if days.len() > 0 {
        lemma_days_total(machine, days.drop_last());
        lemma_cells_total(machine, days.last().date@, days.last().cells@);
        lemma_total_add(
            day_items(machine, days.drop_last()),
            cell_items(machine, days.last().date@, days.last().cells@),
        );
    }
}

proof fn lemma_snapshots_total(snapshots: Seq<MachineSnapshot>)
    ensures
        total(snapshot_items(snapshots)) == snapshots_total(snapshots),
    decreases snapshots.len(),
{
    if snapshots.len() > 0 {
        lemma_snapshots_total(snapshots.drop_last());
        lemma_days_total(snapshots.last().machine@, snapshots.last().days@);
        lemma_total_add(
            snapshot_items(snapshots.drop_last()),
            day_items(snapshots.last().machine@, snapshots.last().days@),
        );
    }
}

proof fn lemma_collapse_sum(
    rows: Seq<MergedRow<Cost>>,
    out: Seq<MergedRow<Vec<Cost>>>,
    n: int,
)
    requires
        is_collapse(rows, out),
        0 <= n <= out.len(),
    ensures
        rows_total(out.take(n)) == sum_over(
            keys_of(machine_items(rows)).take(n),
            machine_items(rows),
            |key: Seq<Seq<char>>| true,
        ),
    decreases n,
{
    if n > 0 {
        let keys = keys_of(machine_items(rows));
        lemma_collapse_sum(rows, out, n - 1);
        assert(out.take(n).drop_last() =~= out.take(n - 1));
        assert(keys.take(n).drop_last() =~= keys.take(n - 1));
        assert(is_collapsed_row(rows, keys[n - 1], out[n - 1]));
    }
}

proof fn lemma_machine_items_total(rows: Seq<MergedRow<Cost>>)
    ensures
        total(machine_items(rows)) == rows_total(rows),
    decreases rows.len(),
{
    if rows.len() > 0 {
        lemma_machine_items_total(rows.drop_last());
        assert(machine_items(rows).drop_last() =~= machine_items(rows.drop_last()));
    }
}

/// Adding the rows of all machines together keeps every token.
pub proof fn collapsing_keeps_every_token(
    rows: Seq<MergedRow<Cost>>,
    out: Seq<MergedRow<Vec<Cost>>>,
)
    requires
        is_collapse(rows, out),
    ensures
        rows_total(out) == rows_total(rows),
{
    let items = machine_items(rows);
    let keys = keys_of(items);
    lemma_keys_of(items);
    lemma_collapse_sum(rows, out, out.len() as int);
    assert(out.take(out.len() as int) =~= out);
    assert(keys.take(out.len() as int) =~= keys);
    lemma_sum_over(keys, items, |key: Seq<Seq<char>>| true);
    lemma_matching_all(items);
    lemma_machine_items_total(rows);
}

proof fn lemma_keys_of_add(a: Seq<ItemView>, b: Seq<ItemView>, key: Seq<Seq<char>>)
    ensures
        keys_of(a + b).contains(key) <==> keys_of(a).contains(key) || keys_of(b).contains(key),
{
    lemma_keys_of(a);
    lemma_keys_of(b);
    lemma_keys_of(a + b);
    if keys_of(a + b).contains(key) {
        let i = choose|i: int| 0 <= i < (a + b).len() && #[trigger] (a + b)[i].key == key;
        if i < a.len() {
            assert(a[i].key == key);
        } else {
            assert(b[i - a.len()].key == key);
        }
    }
    if keys_of(a).contains(key) {
        let i = choose|i: int| 0 <= i < a.len() && #[trigger] a[i].key == key;
        assert((a + b)[i].key == key);
    }
    if keys_of(b).contains(key) {
        let i = choose|i: int| 0 <= i < b.len() && #[trigger] b[i].key == key;
        assert((a + b)[a.len() + i].key == key);
    }
}

/// What one snapshot contributes.
pub open spec fn own_items(snapshot: MachineSnapshot) -> Seq<ItemView> {
    day_items(snapshot.machine@, snapshot.days@)
}

/// What the snapshots contribute under a key, snapshot by snapshot.
spec fn shares(snapshots: Seq<MachineSnapshot>, key: Seq<Seq<char>>) -> Counts
    decreases snapshots.len(),
{
    if snapshots.len() == 0 {
        Counts::none()
    } else {
        shares(snapshots.drop_last(), key).plus(total(under(own_items(snapshots.last()), key)))
    }
}

proof fn lemma_shares(snapshots: Seq<MachineSnapshot>, key: Seq<Seq<char>>)
    ensures
        total(under(snapshot_items(snapshots), key)) == shares(snapshots, key),
        keys_of(snapshot_items(snapshots)).contains(key) <==> exists|i: int|
            0 <= i < snapshots.len() && keys_of(#[trigger] own_items(snapshots[i])).contains(key),
    decreases snapshots.len(),
{
    if snapshots.len() == 0 {
        snapshot_items(snapshots).lemma_filter_len(|item: ItemView| item.key == key);
    } else {
        let rest = snapshots.drop_last();
        lemma_shares(rest, key);
        lemma_under_add(snapshot_items(rest), own_items(snapshots.last()), key);
        lemma_keys_of_add(snapshot_items(rest), own_items(snapshots.last()), key);
        if exists|i: int|
            0 <= i < rest.len() && keys_of(#[trigger] own_items(rest[i])).contains(key) {
            let i = choose|i: int|
                0 <= i < rest.len() && keys_of(#[trigger] own_items(rest[i])).contains(key);
            assert(keys_of(own_items(snapshots[i])).contains(key));
        }
        if exists|i: int|
            0 <= i < snapshots.len() && keys_of(#[trigger] own_items(snapshots[i])).contains(key) {
            let i = choose|i: int|
                0 <= i < snapshots.len() && keys_of(#[trigger] own_items(snapshots[i])).contains(
                    key,
                );
            if i < rest.len() {
                assert(keys_of(own_items(rest[i])).contains(key));
            }
        }
        if keys_of(own_items(snapshots.last())).contains(key) {
            assert(keys_of(own_items(snapshots[snapshots.len() - 1])).contains(key));
        }
    }
}

proof fn lemma_shares_remove(snapshots: Seq<MachineSnapshot>, i: int, key: Seq<Seq<char>>)
    requires
        0 <= i < snapshots.len(),
    ensures
        shares(snapshots, key) == shares(snapshots.remove(i), key).plus(
            total(under(own_items(snapshots[i]), key)),
        ),
    decreases snapshots.len(),
{
    let rest = snapshots.drop_last();
    if i == snapshots.len() - 1 {
        assert(snapshots.remove(i) =~= rest);
    } else {
        lemma_shares_remove(rest, i, key);
        assert(snapshots.remove(i).drop_last() =~= rest.remove(i));
        assert(snapshots.remove(i).last() == snapshots.last());
    }
}

proof fn lemma_shares_permute(
    a: Seq<MachineSnapshot>,
    b: Seq<MachineSnapshot>,
    key: Seq<Seq<char>>,
)
    requires
        a.to_multiset() == b.to_multiset(),
    ensures
        shares(a, key) == shares(b, key),
    decreases a.len(),
{
    broadcast use vstd::seq_lib::group_to_multiset_ensures;

    assert(a.to_multiset().len() == a.len());
    assert(b.to_multiset().len() == b.len());
    if a.len() > 0 {
        let last = a.last();
        assert(a.contains(last));
        assert(b.to_multiset().count(last) > 0);
        assert(b.contains(last));
        let i = choose|i: int| 0 <= i < b.len() && b[i] == last;
        assert(a.drop_last() =~= a.remove(a.len() - 1));
        vstd::seq_lib::to_multiset_remove(a, a.len() - 1);
        vstd::seq_lib::to_multiset_remove(b, i);
        lemma_shares_permute(a.drop_last(), b.remove(i), key);
        lemma_shares_remove(b, i, key);
    }
}

/// The keys ascend strictly.
spec fn ascending(keys: Seq<Seq<Seq<char>>>) -> bool {
    forall|i: int, j: int|
        0 <= i < j < keys.len() ==> key_lt(#[trigger] keys[i], #[trigger] keys[j])
}

proof fn lemma_ascending_unique(a: Seq<Seq<Seq<char>>>, b: Seq<Seq<Seq<char>>>)
    requires
        ascending(a),
        ascending(b),
        forall|key: Seq<Seq<char>>| a.contains(key) <==> b.contains(key),
    ensures
        a == b,
    decreases a.len(),
{
    if a.len() == 0 {
        if b.len() > 0 {
            assert(b.contains(b[0]));
        }
        assert(a =~= b);
    } else {
        assert(a.contains(a.last()));
        assert(b.contains(a.last()));
        assert(b.contains(b.last()));
        assert(a.contains(b.last()));
        let i = choose|i: int| 0 <= i < b.len() && b[i] == a.last();
        let j = choose|j: int| 0 <= j < a.len() && a[j] == b.last();
        if i < b.len() - 1 {
            assert(key_lt(b[i], b[b.len() - 1]));
            if j < a.len() - 1 {
                assert(key_lt(a[j], a[a.len() - 1]));
                lemma_key_order(a.last(), b.last());
            }
        }
        assert(a.last() == b.last());
        let x = a.drop_last();
        let y = b.drop_last();
        assert forall|key: Seq<Seq<char>>| x.contains(key) <==> y.contains(key) by {
            if x.contains(key) {
                let k = choose|k: int| 0 <= k < x.len() && x[k] == key;
                assert(key_lt(a[k], a[a.len() - 1]));
                assert(a.contains(a[k]));
                let m = choose|m: int| 0 <= m < b.len() && b[m] == key;
                assert(y[m] == key);
            }
            if y.contains(key) {
                let k = choose|k: int| 0 <= k < y.len() && y[k] == key;
                assert(key_lt(b[k], b[b.len() - 1]));
                assert(b.contains(b[k]));
                let m = choose|m: int| 0 <= m < a.len() && a[m] == key;
                assert(x[m] == key);
            }
        }
        lemma_ascending_unique(x, y);
        assert(a =~= x.push(a.last()));
        assert(b =~= y.push(b.last()));
    }
}

/// The names of the rows of a merge are the keys of its ledger.
proof fn lemma_merge_names(items: Seq<ItemView>, rows: Seq<MergedRow<Vec<Cost>>>)
    requires
        is_merge(items, rows),
    ensures
        ascending(row_names(rows)),
        forall|key: Seq<Seq<char>>| #[trigger]
            row_names(rows).contains(key) <==> keys_of(items).contains(key),
{
    let names = row_names(rows);
    assert forall|i: int, j: int| 0 <= i < j < names.len() implies key_lt(
        #[trigger] names[i],
        #[trigger] names[j],
    ) by {
        assert(key_lt(rows[i].name(), rows[j].name()));
    }
    assert forall|key: Seq<Seq<char>>| #[trigger] names.contains(key) <==> keys_of(items).contains(key) by {
        if names.contains(key) {
            let i = choose|i: int| 0 <= i < names.len() && names[i] == key;
            assert(is_merged_row(items, rows[i]));
        }
        if keys_of(items).contains(key) {
            let i = choose|i: int| 0 <= i < rows.len() && #[trigger] rows[i].name() == key;
            assert(names[i] == key);
        }
    }
}

/// Merging does not depend on the order in which the snapshots are found: the rows have the same
/// names and the same token counts.
pub proof fn merging_does_not_depend_on_file_order(
    snapshots: Seq<MachineSnapshot>,
    reordered: Seq<MachineSnapshot>,
    rows: Seq<MergedRow<Vec<Cost>>>,
    other_rows: Seq<MergedRow<Vec<Cost>>>,
)
    requires
        snapshots.to_multiset() == reordered.to_multiset(),
        is_merge(snapshot_items(snapshots), rows),
        is_merge(snapshot_items(reordered), other_rows),
    ensures
        rows.len() == other_rows.len(),
        forall|i: int|
            0 <= i < rows.len() ==> (#[trigger] rows[i]).name() == other_rows[i].name()
                && rows[i].counts() == other_rows[i].counts(),
{
    broadcast use vstd::seq_lib::group_to_multiset_ensures;

    let items = snapshot_items(snapshots);
    let other_items = snapshot_items(reordered);
    lemma_merge_names(items, rows);
    lemma_merge_names(other_items, other_rows);
    assert forall|key: Seq<Seq<char>>| row_names(rows).contains(key) <==> row_names(
        other_rows,
    ).contains(key) by {
        lemma_shares(snapshots, key);
        lemma_shares(reordered, key);
        if keys_of(items).contains(key) {
            let i = choose|i: int|
                0 <= i < snapshots.len() && keys_of(#[trigger] own_items(snapshots[i])).contains(
                    key,
                );
            assert(snapshots.contains(snapshots[i]));
            assert(reordered.to_multiset().count(snapshots[i]) > 0);
            assert(reordered.contains(snapshots[i]));
            let j = choose|j: int| 0 <= j < reordered.len() && reordered[j] == snapshots[i];
            assert(keys_of(own_items(reordered[j])).contains(key));
        }
        if keys_of(other_items).contains(key) {
            let i = choose|i: int|
                0 <= i < reordered.len() && keys_of(#[trigger] own_items(reordered[i])).contains(
                    key,
                );
            assert(reordered.contains(reordered[i]));
            assert(snapshots.to_multiset().count(reordered[i]) > 0);
            assert(snapshots.contains(reordered[i]));
            let j = choose|j: int| 0 <= j < snapshots.len() && snapshots[j] == reordered[i];
            assert(keys_of(own_items(snapshots[j])).contains(key));
        }
    }
    lemma_ascending_unique(row_names(rows), row_names(other_rows));
    assert forall|i: int| 0 <= i < rows.len() implies (#[trigger] rows[i]).name()
        == other_rows[i].name() && rows[i].counts() == other_rows[i].counts() by {
        assert(row_names(rows)[i] == row_names(other_rows)[i]);
        let key = rows[i].name();
        assert(is_merged_row(items, rows[i]));
        assert(is_merged_row(other_items, other_rows[i]));
        lemma_shares(snapshots, key);
        lemma_shares(reordered, key);
        lemma_shares_permute(snapshots, reordered, key);
    }
}

/// `settled` are the days of a day map with the sum of its amounts as the cost of each cell.
pub open spec fn is_settled(days: Seq<Day<Vec<Cost>>>, settled: Seq<Day<Cost>>) -> bool {
    &&& settled.len() == days.len()
    &&& forall|d: int| 0 <= d < days.len() ==> #[trigger] is_settled_day(days[d], settled[d])
}

/// `settled` is a day of a day map with the sum of its amounts as the cost of each cell.
pub open spec fn is_settled_day(day: Day<Vec<Cost>>, settled: Day<Cost>) -> bool {
    &&& settled.date@ == day.date@
    &&& settled.cells@.len() == day.cells@.len()
    &&& forall|c: int|
        0 <= c < day.cells@.len() ==> {
            &&& (#[trigger] settled.cells@[c]).0@ == day.cells@[c].0@
            &&& settled.cells@[c].1.counts() == day.cells@[c].1.counts()
        }
}

/// The token counts of the rows of one date and agent together.
pub open spec fn usage_of(rows: Seq<SyncUsageRow>, date: Seq<char>, agent: Seq<char>) -> Counts
    decreases rows.len(),
{
    if rows.len() == 0 {
        Counts::none()
    } else {
        usage_of(rows.drop_last(), date, agent).plus(
            if rows.last().date@ == date && rows.last().agent@ == agent {
                rows.last().counts()
            } else {
                Counts::none()
            },
        )
    }
}

/// A day-map key of the given date and agent.
spec fn is_of(date: Seq<char>, agent: Seq<char>, key: Seq<Seq<char>>) -> bool {
    key.len() == 2 && key[0] == date && agent_text(key[1]) == agent
}

spec fn keys_of_cells<C>(date: Seq<char>, cells: Seq<(String, CellTotals<C>)>) -> Seq<
    Seq<Seq<char>>,
> {
    Seq::new(cells.len(), |c: int| seq![date, cells[c].0@])
}

spec fn keys_of_days<C>(days: Seq<Day<C>>) -> Seq<Seq<Seq<char>>>
    decreases days.len(),
{
    if days.len() == 0 {
        Seq::empty()
    } else {
        keys_of_days(days.drop_last()) + keys_of_cells(days.last().date@, days.last().cells@)
    }
}

proof fn lemma_sum_over_add(
    a: Seq<Seq<Seq<char>>>,
    b: Seq<Seq<Seq<char>>>,
    items: Seq<ItemView>,
    pred: spec_fn(Seq<Seq<char>>) -> bool,
)
    ensures
        sum_over(a + b, items, pred) == sum_over(a, items, pred).plus(sum_over(b, items, pred)),
    decreases b.len(),
{
    if b.len() == 0 {
        assert(a + b =~= a);
    } else {
        lemma_sum_over_add(a, b.drop_last(), items, pred);
        assert((a + b).drop_last() =~= a + b.drop_last());
    }
}

proof fn lemma_keys_of_days(days: Seq<Day<Vec<Cost>>>)
    requires
        days_in_order(days),
    ensures
        keys_of_days(days).no_duplicates(),
        forall|i: int|
            0 <= i < keys_of_days(days).len() ==> exists|d: int|
                0 <= d < days.len() && (#[trigger] days[d]).date@ == (#[trigger] keys_of_days(
                    days,
                )[i])[0],
        forall|d: int, c: int| #[trigger]
            has_cell(days, d, c) ==> keys_of_days(days).contains(day_key(days, d, c)),
    decreases days.len(),
{
    if days.len() > 0 {
        let rest = days.drop_last();
        let last = days.last();
        let front = keys_of_days(rest);
        let back = keys_of_cells(last.date@, last.cells@);
        let all = keys_of_days(days);
        assert forall|d: int| 0 <= d < rest.len() implies #[trigger] cells_in_order(rest[d].cells@) by {
            assert(cells_in_order(days[d].cells@));
        }
        assert forall|i: int, j: int| 0 <= i < j < rest.len() implies crate::order::text_lt(
            #[trigger] rest[i].date@,
            #[trigger] rest[j].date@,
        ) by {
            assert(crate::order::text_lt(days[i].date@, days[j].date@));
        }
        lemma_keys_of_days(rest);
        assert(cells_in_order(days[days.len() - 1].cells@));
        assert forall|i: int| 0 <= i < front.len() implies (#[trigger] front[i])[0] != last.date@ by {
            let d = choose|d: int|
                0 <= d < rest.len() && (#[trigger] rest[d]).date@ == front[i][0];
            assert(crate::order::text_lt(days[d].date@, days[days.len() - 1].date@));
        }
        assert forall|i: int, j: int| 0 <= i < all.len() && 0 <= j < all.len() && i != j implies all[i]
            != all[j] by {
            let n = front.len();
            if i < n && j < n {
                assert(front[i] != front[j]);
            } else if i < n {
                assert(all[j] == back[j - n]);
                assert(back[j - n][0] == last.date@);
                assert(front[i][0] != last.date@);
            } else if j < n {
                assert(all[i] == back[i - n]);
                assert(back[i - n][0] == last.date@);
                assert(front[j][0] != last.date@);
            } else {
                let cells = last.cells@;
                assert(back[i - n][1] == cells[i - n].0@);
                assert(back[j - n][1] == cells[j - n].0@);
                if i < j {
                    assert(crate::order::text_lt(cells[i - n].0@, cells[j - n].0@));
                } else {
                    assert(crate::order::text_lt(cells[j - n].0@, cells[i - n].0@));
                }
            }
        }
        assert forall|i: int| 0 <= i < all.len() implies exists|d: int|
            0 <= d < days.len() && (#[trigger] days[d]).date@ == (#[trigger] all[i])[0] by {
            if i < front.len() {
                let d = choose|d: int|
                    0 <= d < rest.len() && (#[trigger] rest[d]).date@ == front[i][0];
                assert(days[d].date@ == all[i][0]);
            } else {
                assert(all[i] == back[i - front.len()]);
                assert(days[days.len() - 1].date@ == all[i][0]);
            }
        }
        assert forall|d: int, c: int| #[trigger] has_cell(days, d, c) implies all.contains(
            day_key(days, d, c),
        ) by {
            if d < rest.len() {
                assert(has_cell(rest, d, c));
                assert(day_key(rest, d, c) == day_key(days, d, c));
                let i = choose|i: int| 0 <= i < front.len() && front[i] == day_key(days, d, c);
                assert(all[i] == day_key(days, d, c));
            } else {
                assert(back[c] == day_key(days, d, c));
                assert(all[front.len() + c] == day_key(days, d, c));
            }
        }
    }
}

proof fn lemma_settled_cells(
    items: Seq<ItemView>,
    machine: Seq<char>,
    day: Day<Vec<Cost>>,
    settled: Day<Cost>,
    date: Seq<char>,
    agent: Seq<char>,
    n: int,
)
    requires
        is_settled_day(day, settled),
        0 <= n <= day.cells@.len(),
        forall|c: int|
            0 <= c < day.cells@.len() ==> is_day_cell(
                items,
                seq![day.date@, day.cells@[c].0@],
                (#[trigger] day.cells@[c]).1,
            ),
    ensures
        total(
            under(
                cell_items(machine, settled.date@, settled.cells@.take(n)),
                seq![date, machine, agent],
            ),
        ) == sum_over(
            keys_of_cells(day.date@, day.cells@).take(n),
            items,
            |key: Seq<Seq<char>>| is_of(date, agent, key),
        ),
    decreases n,
{
    let wanted = seq![date, machine, agent];
    let keys = keys_of_cells(day.date@, day.cells@);
    if n == 0 {
        assert(settled.cells@.take(0) =~= Seq::empty());
        Seq::<ItemView>::empty().lemma_filter_len(|item: ItemView| item.key == wanted);
    } else {
        lemma_settled_cells(items, machine, day, settled, date, agent, n - 1);
        let cells = settled.cells@.take(n);
        assert(cells.drop_last() =~= settled.cells@.take(n - 1));
        assert(keys.take(n).drop_last() =~= keys.take(n - 1));
        let cell = cells.last();
        let item = cell_item(machine, settled.date@, cell.0@, cell.1);
        let earlier = cell_items(machine, settled.date@, settled.cells@.take(n - 1));
        assert(settled.cells@[n - 1].1.counts() == day.cells@[n - 1].1.counts());
        assert(is_day_cell(items, seq![day.date@, day.cells@[n - 1].0@], day.cells@[n - 1].1));
        crate::tally::lemma_under_push(earlier, item, wanted);
        lemma_total_push(under(earlier, wanted), item);
        let key = keys.take(n).last();
        assert(key == seq![day.date@, day.cells@[n - 1].0@]);
        assert((item.key == wanted) == is_of(date, agent, key)) by {
            assert(item.key[0] == day.date@ && item.key[2] == agent_text(key[1]));
            if is_of(date, agent, key) {
                assert(item.key =~= wanted);
            } else {
                assert(wanted[0] == date && wanted[2] == agent);
            }
        }
    }
}

proof fn lemma_settled_days(
    items: Seq<ItemView>,
    machine: Seq<char>,
    days: Seq<Day<Vec<Cost>>>,
    settled: Seq<Day<Cost>>,
    date: Seq<char>,
    agent: Seq<char>,
)
    requires
        is_settled(days, settled),
        forall|d: int, c: int| #[trigger]
            has_cell(days, d, c) ==> is_day_cell(items, day_key(days, d, c), days[d].cells@[c].1),
    ensures
        total(under(day_items(machine, settled), seq![date, machine, agent])) == sum_over(
            keys_of_days(days),
            items,
            |key: Seq<Seq<char>>| is_of(date, agent, key),
        ),
    decreases days.len(),
{
    let wanted = seq![date, machine, agent];
    let pred = |key: Seq<Seq<char>>| is_of(date, agent, key);
    if days.len() == 0 {
        Seq::<ItemView>::empty().lemma_filter_len(|item: ItemView| item.key == wanted);
    } else {
        let rest = days.drop_last();
        let rest_settled = settled.drop_last();
        let last = days.len() - 1;
        assert forall|d: int| 0 <= d < rest.len() implies #[trigger] is_settled_day(
            rest[d],
            rest_settled[d],
        ) by {
            assert(is_settled_day(days[d], settled[d]));
        }
        assert forall|d: int, c: int| #[trigger] has_cell(rest, d, c) implies is_day_cell(
            items,
            day_key(rest, d, c),
            rest[d].cells@[c].1,
        ) by {
            assert(has_cell(days, d, c));
            assert(day_key(rest, d, c) == day_key(days, d, c));
        }
        lemma_settled_days(items, machine, rest, rest_settled, date, agent);
        assert(is_settled_day(days[last], settled[last]));
        assert forall|c: int| 0 <= c < days[last].cells@.len() implies is_day_cell(
            items,
            seq![days[last].date@, days[last].cells@[c].0@],
            (#[trigger] days[last].cells@[c]).1,
        ) by {
            assert(has_cell(days, last, c));
        }
        let n = days[last].cells@.len() as int;
        let cells = settled[last].cells@;
        lemma_settled_cells(items, machine, days[last], settled[last], date, agent, n);
        assert(cells.take(n) =~= cells);
        let keys = keys_of_cells(days[last].date@, days[last].cells@);
        assert(keys.take(n) =~= keys);
        lemma_sum_over_add(keys_of_days(rest), keys, items, pred);
        lemma_under_add(
            day_items(machine, rest_settled),
            cell_items(machine, settled[last].date@, cells),
            wanted,
        );
    }
}

proof fn lemma_usage_of(rows: Seq<SyncUsageRow>, date: Seq<char>, agent: Seq<char>)
    requires
        forall|i: int| 0 <= i < rows.len() ==> !(#[trigger] rows[i]).agent@.contains(KEY_SEPARATOR),
    ensures
        total(matching(row_items(rows), |key: Seq<Seq<char>>| is_of(date, agent, key))) == usage_of(
            rows,
            date,
            agent,
        ),
    decreases rows.len(),
{
    let pred = |key: Seq<Seq<char>>| is_of(date, agent, key);
    if rows.len() == 0 {
        row_items(rows).lemma_filter_len(|item: ItemView| pred(item.key));
    } else {
        let rest = rows.drop_last();
        let row = rows.last();
        lemma_usage_of(rest, date, agent);
        assert(row_items(rows) =~= row_items(rest).push(row_item(row)));
        row_items(rest).lemma_filter_push(row_item(row), |item: ItemView| pred(item.key));
        lemma_total_push(matching(row_items(rest), pred), row_item(row));
        assert(!rows[rows.len() - 1].agent@.contains(KEY_SEPARATOR));
        cell_keys_are_unambiguous(row.agent@, row.model@, row.agent@, row.model@);
    }
}

/// What a machine publishes is what the merge reads back: under each date and agent the snapshot
/// made of the usage rows contributes exactly the tokens of the rows with that date and agent.
pub proof fn publishing_keeps_the_usage_of_every_agent(
    rows: Seq<SyncUsageRow>,
    days: Seq<Day<Vec<Cost>>>,
    snapshot: MachineSnapshot,
    date: Seq<char>,
    agent: Seq<char>,
)
    requires
        forall|i: int| 0 <= i < rows.len() ==> !(#[trigger] rows[i]).agent@.contains(KEY_SEPARATOR),
        is_day_map(row_items(rows), days),
        is_settled(days, snapshot.days@),
    ensures
        total(under(snapshot_items(seq![snapshot]), seq![date, snapshot.machine@, agent]))
            == usage_of(rows, date, agent),
{
    let items = row_items(rows);
    let pred = |key: Seq<Seq<char>>| is_of(date, agent, key);
    let keys = keys_of_days(days);
    reveal_with_fuel(snapshot_items, 2);
    assert(seq![snapshot].drop_last() =~= Seq::empty());
    assert(snapshot_items(seq![snapshot]) =~= day_items(snapshot.machine@, snapshot.days@));
    lemma_settled_days(items, snapshot.machine@, days, snapshot.days@, date, agent);
    lemma_keys_of_days(days);
    lemma_keys_of(items);
    assert forall|i: int| 0 <= i < items.len() implies keys.contains(#[trigger] items[i].key) by {
        assert(keys_of(items).contains(items[i].key));
        let (d, c) = choose|d: int, c: int| #[trigger]
            has_cell(days, d, c) && day_key(days, d, c) == items[i].key;
        assert(keys.contains(day_key(days, d, c)));
    }
    lemma_sum_over(keys, items, pred);
    lemma_usage_of(rows, date, agent);
}

proof fn lemma_under_concat(a: Seq<ItemView>, b: Seq<ItemView>, key: Seq<Seq<char>>)
    ensures
        under(a + b, key) == under(a, key) + under(b, key),
{
    Seq::filter_distributes_over_add(a, b, |item: ItemView| item.key == key);
}

/// A key is one of the ledger where the ledger holds something under it.
pub proof fn lemma_key_listed(items: Seq<ItemView>, key: Seq<Seq<char>>)
    ensures
        keys_of(items).contains(key) <==> under(items, key).len() > 0,
    decreases items.len(),
{
    if items.len() == 0 {
        items.lemma_filter_len(|item: ItemView| item.key == key);
    } else {
        let rest = items.drop_last();
        let last = items.last();
        lemma_key_listed(rest, key);
        assert(items =~= rest.push(last));
        crate::tally::lemma_under_push(rest, last, key);
        lemma_keys_of(items);
        lemma_keys_of(rest);
        if last.key == key {
            assert(items[items.len() - 1].key == key);
        } else if keys_of(items).contains(key) {
            let i = choose|i: int| 0 <= i < items.len() && #[trigger] items[i].key == key;
            assert(rest[i].key == key);
        } else if keys_of(rest).contains(key) {
            let i = choose|i: int| 0 <= i < rest.len() && #[trigger] rest[i].key == key;
            assert(items[i].key == key);
        }
    }
}

proof fn lemma_foreign_cells(
    machine: Seq<char>,
    date: Seq<char>,
    cells: Seq<(String, CellTotals<Cost>)>,
    key: Seq<Seq<char>>,
)
    requires
        key.len() == 3,
        key[1] != machine,
    ensures
        under(cell_items(machine, date, cells), key).len() == 0,
    decreases cells.len(),
{
    if cells.len() == 0 {
        Seq::<ItemView>::empty().lemma_filter_len(|item: ItemView| item.key == key);
    } else {
        let rest = cell_items(machine, date, cells.drop_last());
        let item = cell_item(machine, date, cells.last().0@, cells.last().1);
        lemma_foreign_cells(machine, date, cells.drop_last(), key);
        crate::tally::lemma_under_push(rest, item, key);
        assert(item.key[1] == machine);
    }
}

proof fn lemma_foreign_days(machine: Seq<char>, days: Seq<Day<Cost>>, key: Seq<Seq<char>>)
    requires
        key.len() == 3,
        key[1] != machine,
    ensures
        under(day_items(machine, days), key).len() == 0,
    decreases days.len(),
{
    if days.len() == 0 {
        Seq::<ItemView>::empty().lemma_filter_len(|item: ItemView| item.key == key);
    } else {
        lemma_foreign_days(machine, days.drop_last(), key);
        lemma_foreign_cells(machine, days.last().date@, days.last().cells@, key);
        lemma_under_concat(
            day_items(machine, days.drop_last()),
            cell_items(machine, days.last().date@, days.last().cells@),
            key,
        );
    }
}

proof fn lemma_foreign_key(
    before: Seq<MachineSnapshot>,
    after: Seq<MachineSnapshot>,
    at: int,
    key: Seq<Seq<char>>,
)
    requires
        0 <= at < before.len(),
        after.len() == before.len(),
        forall|i: int| 0 <= i < before.len() && i != at ==> #[trigger] after[i] == before[i],
        after[at].machine@ == before[at].machine@,
        key.len() == 3,
        key[1] != before[at].machine@,
    ensures
        under(snapshot_items(after), key) == under(snapshot_items(before), key),
    decreases before.len(),
{
    let rest = before.drop_last();
    let other = after.drop_last();
    lemma_under_concat(snapshot_items(rest), own_items(before.last()), key);
    lemma_under_concat(snapshot_items(other), own_items(after.last()), key);
    if at == before.len() - 1 {
        assert(rest =~= other);
        lemma_foreign_days(before[at].machine@, before[at].days@, key);
        lemma_foreign_days(after[at].machine@, after[at].days@, key);
        assert(under(own_items(before.last()), key) =~= under(own_items(after.last()), key));
    } else {
        assert forall|i: int| 0 <= i < rest.len() && i != at implies #[trigger] other[i] == rest[i] by {
            assert(after[i] == before[i]);
        }
        lemma_foreign_key(rest, other, at, key);
        assert(after[before.len() - 1] == before[before.len() - 1]);
    }
}

/// A machine only ever changes its own rows: when one machine publishes another snapshot, every
/// row of the other machines stays, with the same counts and the same amounts.
pub proof fn publishing_leaves_other_machines_alone(
    before: Seq<MachineSnapshot>,
    after: Seq<MachineSnapshot>,
    at: int,
    rows: Seq<MergedRow<Vec<Cost>>>,
    new_rows: Seq<MergedRow<Vec<Cost>>>,
)
    requires
        0 <= at < before.len(),
        after.len() == before.len(),
        forall|i: int| 0 <= i < before.len() && i != at ==> #[trigger] after[i] == before[i],
        after[at].machine@ == before[at].machine@,
        is_merge(snapshot_items(before), rows),
        is_merge(snapshot_items(after), new_rows),
    ensures
        forall|i: int|
            0 <= i < rows.len() && (#[trigger] rows[i]).machine@ != before[at].machine@
                ==> exists|j: int|
                0 <= j < new_rows.len() && (#[trigger] new_rows[j]).name() == rows[i].name()
                    && new_rows[j].counts() == rows[i].counts() && new_rows[j].cost@
                    == rows[i].cost@,
{
    let items = snapshot_items(before);
    let new_items = snapshot_items(after);
    assert forall|i: int|
        0 <= i < rows.len() && (#[trigger] rows[i]).machine@ != before[at].machine@ implies exists|
        j: int,
    |
        0 <= j < new_rows.len() && (#[trigger] new_rows[j]).name() == rows[i].name()
            && new_rows[j].counts() == rows[i].counts() && new_rows[j].cost@ == rows[i].cost@ by {
        let key = rows[i].name();
        assert(is_merged_row(items, rows[i]));
        lemma_foreign_key(before, after, at, key);
        lemma_key_listed(items, key);
        lemma_key_listed(new_items, key);
        let j = choose|j: int| 0 <= j < new_rows.len() && #[trigger] new_rows[j].name() == key;
        assert(is_merged_row(new_items, new_rows[j]));
    }
}

} // verus!
