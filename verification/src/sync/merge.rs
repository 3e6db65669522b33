//! Merging the snapshots of all machines into report rows.

use vstd::prelude::*;
use crate::cost::Cost;
use crate::order::{
    key_at_or_before, key_le, key_lt, key_view, lemma_key_order, lemma_key_transitive,
};
use crate::sort::{is_stable_sort, reversed, stable_sort, Ranked};
use crate::sync::snapshot::{agent_of_key, agent_text, Day, MachineSnapshot, MergedRow};
use crate::tally::{
    costs_of, group, group_sorted, is_first, is_group, is_grouping, keys_of, lemma_keys_of, ledger,
    total, totals_fit, under, CellTotals, Group, Item, ItemView,
};

verus! {

/// What a cell of a snapshot contributes: its totals under date, machine and agent.
pub open spec fn cell_item(
    machine: Seq<char>,
    date: Seq<char>,
    key: Seq<char>,
    cell: CellTotals<Cost>,
) -> ItemView {
    ItemView { key: seq![date, machine, agent_text(key)], counts: cell.counts(), cost: cell.cost }
}

/// What the cells of a day contribute. Empty cells contribute nothing.
pub open spec fn cell_items(
    machine: Seq<char>,
    date: Seq<char>,
    cells: Seq<(String, CellTotals<Cost>)>,
) -> Seq<ItemView>
    decreases cells.len(),
{
    if cells.len() == 0 {
        Seq::empty()
    } else {
        let earlier = cell_items(machine, date, cells.drop_last());
        if cells.last().1.empty() {
            earlier
        } else {
            earlier.push(cell_item(machine, date, cells.last().0@, cells.last().1))
        }
    }
}

/// What the days of a machine contribute.
pub open spec fn day_items(machine: Seq<char>, days: Seq<Day<Cost>>) -> Seq<ItemView>
    decreases days.len(),
{
    if days.len() == 0 {
        Seq::empty()
    } else {
        day_items(machine, days.drop_last()) + cell_items(
            machine,
            days.last().date@,
            days.last().cells@,
        )
    }
}

/// What all snapshots contribute.
pub open spec fn snapshot_items(snapshots: Seq<MachineSnapshot>) -> Seq<ItemView>
    decreases snapshots.len(),
{
    if snapshots.len() == 0 {
        Seq::empty()
    } else {
        snapshot_items(snapshots.drop_last()) + day_items(
            snapshots.last().machine@,
            snapshots.last().days@,
        )
    }
}

/// `row` holds the totals that the ledger has under the name of the row.
pub open spec fn is_merged_row(items: Seq<ItemView>, row: MergedRow<Vec<Cost>>) -> bool {
    &&& keys_of(items).contains(row.name())
    &&& row.counts() == total(under(items, row.name()))
    &&& row.cost@ == costs_of(under(items, row.name()))
}

/// `rows` are the merged rows of a ledger: one per date, machine and agent, in that order.
pub open spec fn is_merge(items: Seq<ItemView>, rows: Seq<MergedRow<Vec<Cost>>>) -> bool {
    &&& forall|i: int| 0 <= i < rows.len() ==> is_merged_row(items, #[trigger] rows[i])
    &&& forall|i: int, j: int|
        0 <= i < j < rows.len() ==> key_lt(#[trigger] rows[i].name(), #[trigger] rows[j].name())
    &&& forall|key: Seq<Seq<char>>| #[trigger]
        keys_of(items).contains(key) ==> exists|i: int|
            0 <= i < rows.len() && #[trigger] rows[i].name() == key
}

fn push_cells(
    items: &mut Vec<Item>,
    machine: &String,
    date: &String,
    cells: &Vec<(String, CellTotals<Cost>)>,
)
    ensures
        ledger(final(items)@) == ledger(old(items)@) + cell_items(machine@, date@, cells@),
{
    let ghost start = ledger(items@);
    let mut i: usize = 0;
    assert(cells@.take(0) =~= Seq::empty());
    assert(ledger(items@) =~= start + cell_items(machine@, date@, cells@.take(0)));
    while i < cells.len()
        invariant
            i <= cells@.len(),
            ledger(items@) == start + cell_items(machine@, date@, cells@.take(i as int)),
        decreases cells@.len() - i,
    {
        assert(cells@.take(i + 1).drop_last() =~= cells@.take(i as int));
        let cell = &cells[i].1;
        if !cell.is_empty() {
            let mut key: Vec<String> = Vec::new();
            key.push(date.clone());
            key.push(machine.clone());
            key.push(agent_of_key(cells[i].0.as_str()));
            let ghost before = ledger(items@);
            let item = Item {
                key,
                cell: CellTotals {
                    input_tokens: cell.input_tokens,
                    output_tokens: cell.output_tokens,
                    cache_creation_tokens: cell.cache_creation_tokens,
                    cache_read_tokens: cell.cache_read_tokens,
                    cost: cell.cost,
                },
            };
            assert(key_view(key@) =~= seq![date@, machine@, agent_text(cells@[i as int].0@)]);
            assert(item@ == cell_item(machine@, date@, cells@[i as int].0@, *cell));
            items.push(item);
            assert(ledger(items@) =~= before.push(item@));
            assert(ledger(items@) =~= start + cell_items(machine@, date@, cells@.take(i + 1)));
        }
        i = i + 1;
    }
    assert(cells@.take(cells@.len() as int) =~= cells@);
}

fn items_of_snapshots(snapshots: &Vec<MachineSnapshot>) -> (items: Vec<Item>)
    ensures
        ledger(items@) == snapshot_items(snapshots@),
{
    let mut items: Vec<Item> = Vec::new();
    let mut s: usize = 0;
    assert(snapshots@.take(0) =~= Seq::empty());
    assert(ledger(items@) =~= snapshot_items(snapshots@.take(0)));
    while s < snapshots.len()
        invariant
            s <= snapshots@.len(),
            ledger(items@) == snapshot_items(snapshots@.take(s as int)),
        decreases snapshots@.len() - s,
    {
        assert(snapshots@.take(s + 1).drop_last() =~= snapshots@.take(s as int));
        let machine = &snapshots[s].machine;
        let days = &snapshots[s].days;
        let ghost start = ledger(items@);
        let mut d: usize = 0;
        assert(days@.take(0) =~= Seq::empty());
        assert(ledger(items@) =~= start + day_items(machine@, days@.take(0)));
        while d < days.len()
            invariant
                d <= days@.len(),
                ledger(items@) == start + day_items(machine@, days@.take(d as int)),
            decreases days@.len() - d,
        {
            assert(days@.take(d + 1).drop_last() =~= days@.take(d as int));
            push_cells(&mut items, machine, &days[d].date, &days[d].cells);
            assert(ledger(items@) =~= start + day_items(machine@, days@.take(d + 1)));
            d = d + 1;
        }
        assert(days@.take(days@.len() as int) =~= days@);
        s = s + 1;
    }
    assert(snapshots@.take(snapshots@.len() as int) =~= snapshots@);
    items
}

/// Whether the token counts of every date, machine and agent of the snapshots fit.
pub fn snapshots_fit(snapshots: &Vec<MachineSnapshot>) -> (r: bool)
    ensures
        r == totals_fit(snapshot_items(snapshots@)),
{
    group(items_of_snapshots(snapshots)).is_some()
}

/// Every key consists of date, machine and agent.
spec fn keys_have_three_parts(items: Seq<ItemView>) -> bool {
    forall|i: int| 0 <= i < items.len() ==> (#[trigger] items[i]).key.len() == 3
}

proof fn lemma_cell_keys(
    machine: Seq<char>,
    date: Seq<char>,
    cells: Seq<(String, CellTotals<Cost>)>,
)
    ensures
        keys_have_three_parts(cell_items(machine, date, cells)),
    decreases cells.len(),
{
    if cells.len() > 0 {
        lemma_cell_keys(machine, date, cells.drop_last());
    }
}

proof fn lemma_day_keys(machine: Seq<char>, days: Seq<Day<Cost>>)
    ensures
        keys_have_three_parts(day_items(machine, days)),
    decreases days.len(),
{
    if days.len() > 0 {
        lemma_day_keys(machine, days.drop_last());
        lemma_cell_keys(machine, days.last().date@, days.last().cells@);
    }
}

proof fn lemma_snapshot_keys(snapshots: Seq<MachineSnapshot>)
    ensures
        keys_have_three_parts(snapshot_items(snapshots)),
    decreases snapshots.len(),
{
    if snapshots.len() > 0 {
        lemma_snapshot_keys(snapshots.drop_last());
        lemma_day_keys(snapshots.last().machine@, snapshots.last().days@);
    }
}

fn row_of_group(group: Group) -> (row: MergedRow<Vec<Cost>>)
    requires
        group.key@.len() == 3,
    ensures
        row.name() == group.name(),
        row.date@ == group.key@[0]@,
        row.machine@ == group.key@[1]@,
        row.agent@ == group.key@[2]@,
        row.counts() == group.totals.counts(),
        row.input_tokens == group.totals.input_tokens,
        row.output_tokens == group.totals.output_tokens,
        row.cache_creation_tokens == group.totals.cache_creation_tokens,
        row.cache_read_tokens == group.totals.cache_read_tokens,
        row.cost == group.totals.cost,
{
    let row = MergedRow {
        date: group.key[0].clone(),
        machine: group.key[1].clone(),
        agent: group.key[2].clone(),
        input_tokens: group.totals.input_tokens,
        output_tokens: group.totals.output_tokens,
        cache_creation_tokens: group.totals.cache_creation_tokens,
        cache_read_tokens: group.totals.cache_read_tokens,
        cost: group.totals.cost,
    };
    assert(row.name() =~= group.name());
    row
}

/// Collapses snapshots into one row per date, machine and agent; the models of an agent are
/// added together, and cells without tokens and cost are skipped.
pub fn merged_rows_from_snapshots(snapshots: &Vec<MachineSnapshot>) -> (rows: Vec<
    MergedRow<Vec<Cost>>,
>)
    requires
        totals_fit(snapshot_items(snapshots@)),
    ensures
        is_merge(snapshot_items(snapshots@), rows@),
{
    let ghost items = snapshot_items(snapshots@);
    match group_sorted(items_of_snapshots(snapshots)) {
        Some(groups) => {
            let ghost all = groups@;
            let mut rest = reversed(groups);
            let mut rows: Vec<MergedRow<Vec<Cost>>> = Vec::new();
            assert(rest@.reverse() =~= all.skip(0));
            proof {
                lemma_snapshot_keys(snapshots@);
                lemma_keys_of(items);
                assert forall|g: int| 0 <= g < all.len() implies (#[trigger] all[g]).key@.len() == 3 by {
                    assert(keys_of(items).contains(all[g].name()));
                }
            }
            while rest.len() > 0
                invariant
                    forall|g: int| 0 <= g < all.len() ==> (#[trigger] all[g]).key@.len() == 3,
                    rest@.len() + rows@.len() == all.len(),
                    rest@.reverse() =~= all.skip(rows@.len() as int),
                    forall|i: int|
                        0 <= i < rows@.len() ==> {
                            &&& (#[trigger] rows@[i]).name() == all[i].name()
                            &&& rows@[i].counts() == all[i].totals.counts()
                            &&& rows@[i].cost == all[i].totals.cost
                        },
                decreases rest@.len(),
            {
                let ghost n = rows@.len() as int;
                assert(rest@.last() == rest@.reverse()[0]);
                assert(rest@.last() == all[n]);
                if let Some(next) = rest.pop() {
                    rows.push(row_of_group(next));
                    assert(all.skip(n + 1) =~= all.skip(n).drop_first());
                }
            }
            proof {
                assert forall|i: int| 0 <= i < rows@.len() implies is_merged_row(
                    items,
                    #[trigger] rows@[i],
                ) by {
                    assert(is_group(items, all[i].name(), all[i]));
                    assert(keys_of(items).contains(all[i].name()));
                }
                assert forall|i: int, j: int| 0 <= i < j < rows@.len() implies key_lt(
                    #[trigger] rows@[i].name(),
                    #[trigger] rows@[j].name(),
                ) by {
                    assert(key_lt(all[i].name(), all[j].name()));
                }
                assert forall|key: Seq<Seq<char>>| #[trigger] keys_of(items).contains(key) implies exists|
                    i: int,
                | 0 <= i < rows@.len() && #[trigger] rows@[i].name() == key by {
                    let g = choose|g: int| 0 <= g < all.len() && #[trigger] all[g].name() == key;
                    assert(rows@[g].name() == key);
                }
            }
            rows
        },
        None => Vec::new(),
    }
}

/// What a merged row contributes to the row of its date and agent.
pub open spec fn machine_item(row: MergedRow<Cost>) -> ItemView {
    ItemView { key: seq![row.date@, row.agent@], counts: row.counts(), cost: row.cost }
}

/// What merged rows contribute to the rows of their dates and agents.
pub open spec fn machine_items(rows: Seq<MergedRow<Cost>>) -> Seq<ItemView> {
    rows.map_values(|row: MergedRow<Cost>| machine_item(row))
}

/// `out` is the row that adds up those of the given rows that share the date and agent `key`. It
/// is named after the first of them.
pub open spec fn is_collapsed_row(
    rows: Seq<MergedRow<Cost>>,
    key: Seq<Seq<char>>,
    out: MergedRow<Vec<Cost>>,
) -> bool {
    let items = machine_items(rows);
    &&& seq![out.date@, out.agent@] == key
    &&& out.counts() == total(under(items, key))
    &&& out.cost@ == costs_of(under(items, key))
    &&& exists|at: int| #[trigger] is_first(items, key, at) && out.machine == rows[at].machine
}

/// `out` has one row per date and agent of `rows`, in the order of their first appearance.
pub open spec fn is_collapse(rows: Seq<MergedRow<Cost>>, out: Seq<MergedRow<Vec<Cost>>>) -> bool {
    let keys = keys_of(machine_items(rows));
    &&& out.len() == keys.len()
    &&& forall|i: int| 0 <= i < out.len() ==> is_collapsed_row(rows, keys[i], #[trigger] out[i])
}

fn items_of_merged(rows: &Vec<MergedRow<Cost>>) -> (items: Vec<Item>)
    ensures
        ledger(items@) == machine_items(rows@),
{
    let mut items: Vec<Item> = Vec::new();
    let mut i: usize = 0;
    while i < rows.len()
        invariant
            i <= rows@.len(),
            ledger(items@) =~= machine_items(rows@).take(i as int),
        decreases rows@.len() - i,
    {
        let row = &rows[i];
        let mut key: Vec<String> = Vec::new();
        key.push(row.date.clone());
        key.push(row.agent.clone());
        let ghost before = ledger(items@);
        let item = Item {
            key,
            cell: CellTotals {
                input_tokens: row.input_tokens,
                output_tokens: row.output_tokens,
                cache_creation_tokens: row.cache_creation_tokens,
                cache_read_tokens: row.cache_read_tokens,
                cost: row.cost,
            },
        };
        assert(key_view(key@) =~= seq![row.date@, row.agent@]);
        assert(item@ == machine_item(rows@[i as int]));
        items.push(item);
        assert(ledger(items@) =~= before.push(item@));
        i = i + 1;
    }
    items
}

/// Whether the token counts of every date and agent of the rows fit.
pub fn merged_rows_fit(rows: &Vec<MergedRow<Cost>>) -> (r: bool)
    ensures
        r == totals_fit(machine_items(rows@)),
{
    group(items_of_merged(rows)).is_some()
}

/// Adds machine rows together, so that there is one row per day and agent across every device.
pub fn collapse_machines(rows: Vec<MergedRow<Cost>>) -> (out: Vec<MergedRow<Vec<Cost>>>)
    requires
        totals_fit(machine_items(rows@)),
    ensures
        is_collapse(rows@, out@),
{
    let ghost items = machine_items(rows@);
    let ghost keys = keys_of(items);
    match group(items_of_merged(&rows)) {
        Some(groups) => {
            let ghost all = groups@;
            let mut rest = reversed(groups);
            let mut out: Vec<MergedRow<Vec<Cost>>> = Vec::new();
            assert(rest@.reverse() =~= all.skip(0));
            while rest.len() > 0
                invariant
                    items == machine_items(rows@),
                    keys == keys_of(items),
                    is_grouping(items, all),
                    rest@.len() + out@.len() == all.len(),
                    rest@.reverse() =~= all.skip(out@.len() as int),
                    forall|i: int|
                        0 <= i < out@.len() ==> is_collapsed_row(rows@, keys[i], #[trigger] out@[i]),
                decreases rest@.len(),
            {
                let ghost n = out@.len() as int;
                proof {
                    assert(rest@.last() == rest@.reverse()[0]);
                    assert(rest@.last() == all[n]);
                    assert(is_group(items, keys[n], all[n]));
                }
                if let Some(next) = rest.pop() {
                    proof {
                        let at = next.first as int;
                        assert(is_first(items, keys[n], at));
                        assert(items[at] == machine_item(rows@[at]));
                    }
                    let first = &rows[next.first];
                    let row = MergedRow {
                        date: first.date.clone(),
                        machine: first.machine.clone(),
                        agent: first.agent.clone(),
                        input_tokens: next.totals.input_tokens,
                        output_tokens: next.totals.output_tokens,
                        cache_creation_tokens: next.totals.cache_creation_tokens,
                        cache_read_tokens: next.totals.cache_read_tokens,
                        cost: next.totals.cost,
                    };
                    assert(is_collapsed_row(rows@, keys[n], row));
                    out.push(row);
                    assert(all.skip(n + 1) =~= all.skip(n).drop_first());
                }
            }
            out
        },
        None => Vec::new(),
    }
}

impl Ranked for MergedRow<Cost> {
    open spec fn precedes(&self, other: &Self) -> bool {
        key_le(self.name(), other.name())
    }

    proof fn rank_total(a: &Self, b: &Self) {
        lemma_key_order(a.name(), b.name());
    }

    proof fn rank_transitive(a: &Self, b: &Self, c: &Self) {
        lemma_key_transitive(a.name(), b.name(), c.name());
    }

    fn at_or_before(&self, other: &Self) -> (r: bool) {
        let mut own: Vec<String> = Vec::new();
        own.push(self.date.clone());
        own.push(self.machine.clone());
        own.push(self.agent.clone());
        let mut others: Vec<String> = Vec::new();
        others.push(other.date.clone());
        others.push(other.machine.clone());
        others.push(other.agent.clone());
        assert(key_view(own@) =~= self.name());
        assert(key_view(others@) =~= other.name());
        key_at_or_before(&own, &others)
    }
}

/// Sorts rows by date, machine and agent.
pub fn sort_merged(rows: Vec<MergedRow<Cost>>) -> (out: Vec<MergedRow<Cost>>)
    ensures
        is_stable_sort(rows@, out@),
{
    stable_sort(rows)
}

/// The rows that a sync table shows.
#[derive(Debug)]
pub enum ShownRows {
    /// One row per date, machine and agent.
    ByMachine(Vec<MergedRow<Cost>>),
    /// One row per date and agent, with the machines added together.
    Collapsed(Vec<MergedRow<Vec<Cost>>>),
}

/// The rows that a sync table shows: those of each machine where they are asked for, and
/// otherwise those of all machines together.
pub fn rows_to_show(rows: Vec<MergedRow<Cost>>, by_machine: bool) -> (out: ShownRows)
    requires
        !by_machine ==> totals_fit(machine_items(rows@)),
    ensures
        match out {
            ShownRows::ByMachine(shown) => by_machine && is_stable_sort(rows@, shown@),
            ShownRows::Collapsed(shown) => !by_machine && is_collapse(rows@, shown@),
        },
{
    if by_machine {
        ShownRows::ByMachine(sort_merged(rows))
    } else {
        ShownRows::Collapsed(collapse_machines(rows))
    }
}

} // verus!
