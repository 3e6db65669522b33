//! What merged rows and day maps hold, read off the cells and rows that they are made of.

use vstd::prelude::*;
use vstd::string::*;
use crate::all::rows::SyncUsageRow;
use crate::cost::{Cost, NEGATIVE_ZERO_BITS};
use crate::sync::merge::{
    cell_items, day_items, is_collapse, is_collapsed_row, is_merge, is_merged_row, machine_items,
    snapshot_items,
};
use crate::sync::snapshot::{
    agent_text, day_key, has_cell, is_day_cell, is_day_map, row_items, Day, MachineSnapshot,
    MergedRow, KEY_SEPARATOR,
};
use crate::order::{key_lt, text_lt};
use crate::sums::{lemma_sum_push, sum_by};
use crate::tally::{
    costs_of, keys_of, lemma_keys_of, lemma_under_push, total, under, CellTotals, ItemView,
};
use crate::text::{first_at, lemma_first_at, lemma_first_at_unique};

verus! {

/// A cell of a snapshot with where it stands.
pub struct StoredCell {
    pub machine: Seq<char>,
    pub date: Seq<char>,
    pub key: Seq<char>,
    pub cell: CellTotals<Cost>,
}

/// The cells of a day of a machine, in order.
pub open spec fn cells_of_day(machine: Seq<char>, day: Day<Cost>) -> Seq<StoredCell> {
    day.cells@.map_values(
        |cell: (String, CellTotals<Cost>)|
            StoredCell { machine, date: day.date@, key: cell.0@, cell: cell.1 },
    )
}

/// The cells of days of a machine, in order.
pub open spec fn cells_of_days(machine: Seq<char>, days: Seq<Day<Cost>>) -> Seq<StoredCell>
    decreases days.len(),
{
    if days.len() == 0 {
        Seq::empty()
    } else {
        cells_of_days(machine, days.drop_last()) + cells_of_day(machine, days.last())
    }
}

/// The cells of snapshots, in order.
pub open spec fn cells_of(snapshots: Seq<MachineSnapshot>) -> Seq<StoredCell>
    decreases snapshots.len(),
{
    if snapshots.len() == 0 {
        Seq::empty()
    } else {
        cells_of(snapshots.drop_last()) + cells_of_days(
            snapshots.last().machine@,
            snapshots.last().days@,
        )
    }
}

/// The cell has tokens of some kind, or a cost.
pub open spec fn holds_usage(cell: CellTotals<Cost>) -> bool {
    ||| cell.input_tokens > 0
    ||| cell.output_tokens > 0
    ||| cell.cache_creation_tokens > 0
    ||| cell.cache_read_tokens > 0
    ||| cell.cost.bits != 0 && cell.cost.bits != NEGATIVE_ZERO_BITS
}

/// The cells of snapshots that hold usage, in order.
pub open spec fn used_cells(snapshots: Seq<MachineSnapshot>) -> Seq<StoredCell> {
    cells_of(snapshots).filter(|stored: StoredCell| holds_usage(stored.cell))
}

/// The key is one of the agent: the agent alone, or the agent, the separator and a model.
pub open spec fn is_key_of(agent: Seq<char>, key: Seq<char>) -> bool {
    !agent.contains(KEY_SEPARATOR) && (key == agent || agent.push(KEY_SEPARATOR).is_prefix_of(key))
}

/// The cell belongs to the row: they have date and machine in common, and the key of the cell is
/// one of the row's agent.
pub open spec fn belongs<C>(stored: StoredCell, row: MergedRow<C>) -> bool {
    &&& stored.date == row.date@
    &&& stored.machine == row.machine@
    &&& is_key_of(row.agent@, stored.key)
}

/// The cells with usage that belong to a row, in order.
pub open spec fn own_cells<C>(
    snapshots: Seq<MachineSnapshot>,
    row: MergedRow<C>,
) -> Seq<StoredCell> {
    used_cells(snapshots).filter(|stored: StoredCell| belongs(stored, row))
}

proof fn lemma_agent_of_key(agent: Seq<char>, key: Seq<char>)
    ensures
        agent_text(key) == agent <==> is_key_of(agent, key),
{
    let at = first_at(key, KEY_SEPARATOR);
    lemma_first_at(key, KEY_SEPARATOR);
    if agent_text(key) == agent {
        assert(!agent.contains(KEY_SEPARATOR)) by {
            if agent.contains(KEY_SEPARATOR) {
                let i = choose|i: int| 0 <= i < agent.len() && agent[i] == KEY_SEPARATOR;
                assert(key[i] == agent[i]);
            }
        }
        if at < key.len() {
            assert(key.subrange(0, agent.len() as int + 1) =~= agent.push(KEY_SEPARATOR));
        } else {
            assert(key =~= agent);
        }
    }
    if is_key_of(agent, key) {
        let n = agent.len() as int;
        assert forall|i: int| 0 <= i < n implies key[i] != KEY_SEPARATOR by {
            assert(agent.contains(agent[i]));
            if key != agent {
                assert(key[i] == agent.push(KEY_SEPARATOR)[i]);
            }
        }
        if key != agent {
            assert(key[n] == agent.push(KEY_SEPARATOR)[n]);
        }
        lemma_first_at_unique(key, KEY_SEPARATOR, n);
        assert(key.take(n) =~= agent);
    }
}

/// Where a ledger has an item for each of a list, what it holds under a key can be read off those
/// of the list that have the key.
proof fn lemma_read_off<T>(
    items: Seq<ItemView>,
    list: Seq<T>,
    key: Seq<Seq<char>>,
    pred: spec_fn(T) -> bool,
    cell: spec_fn(T) -> CellTotals<Cost>,
)
    requires
        items.len() == list.len(),
        forall|i: int|
            0 <= i < list.len() ==> {
                &&& (items[i].key == key) == pred(#[trigger] list[i])
                &&& items[i].counts.input == cell(list[i]).input_tokens
                &&& items[i].counts.output == cell(list[i]).output_tokens
                &&& items[i].counts.cache_creation == cell(list[i]).cache_creation_tokens
                &&& items[i].counts.cache_read == cell(list[i]).cache_read_tokens
                &&& items[i].cost == cell(list[i]).cost
            },
    ensures
        under(items, key).len() == list.filter(pred).len(),
        costs_of(under(items, key)) == list.filter(pred).map_values(|t: T| cell(t).cost),
        total(under(items, key)).input == sum_by(
            list.filter(pred),
            |t: T| cell(t).input_tokens as nat,
        ),
        total(under(items, key)).output == sum_by(
            list.filter(pred),
            |t: T| cell(t).output_tokens as nat,
        ),
        total(under(items, key)).cache_creation == sum_by(
            list.filter(pred),
            |t: T| cell(t).cache_creation_tokens as nat,
        ),
        total(under(items, key)).cache_read == sum_by(
            list.filter(pred),
            |t: T| cell(t).cache_read_tokens as nat,
        ),
    decreases items.len(),
{
    let input = |t: T| cell(t).input_tokens as nat;
    let output = |t: T| cell(t).output_tokens as nat;
    let created = |t: T| cell(t).cache_creation_tokens as nat;
    let read = |t: T| cell(t).cache_read_tokens as nat;
    let cost = |t: T| cell(t).cost;
    if items.len() == 0 {
        items.lemma_filter_len(|item: ItemView| item.key == key);
        list.lemma_filter_len(pred);
        assert(costs_of(under(items, key)) =~= list.filter(pred).map_values(cost));
    } else {
        let front = items.drop_last();
        let rest = list.drop_last();
        let item = items.last();
        let last = list.last();
        assert forall|i: int| 0 <= i < rest.len() implies {
            &&& (front[i].key == key) == pred(#[trigger] rest[i])
            &&& front[i].counts.input == cell(rest[i]).input_tokens
            &&& front[i].counts.output == cell(rest[i]).output_tokens
            &&& front[i].counts.cache_creation == cell(rest[i]).cache_creation_tokens
            &&& front[i].counts.cache_read == cell(rest[i]).cache_read_tokens
            &&& front[i].cost == cell(rest[i]).cost
        } by {
            assert(rest[i] == list[i]);
            assert(front[i] == items[i]);
        }
        lemma_read_off(front, rest, key, pred, cell);
        assert(items =~= front.push(item));
        assert(list =~= rest.push(last));
        assert((item.key == key) == pred(list[list.len() - 1]));
        lemma_under_push(front, item, key);
        lemma_under_push(under(front, key), item, key);
        rest.lemma_filter_push(last, pred);
        lemma_sum_push(rest.filter(pred), last, input);
        lemma_sum_push(rest.filter(pred), last, output);
        lemma_sum_push(rest.filter(pred), last, created);
        lemma_sum_push(rest.filter(pred), last, read);
        assert(costs_of(under(items, key)) =~= list.filter(pred).map_values(cost));
    }
}

/// The items of a ledger are those of the cells, one for each.
spec fn mirrors(items: Seq<ItemView>, cells: Seq<StoredCell>) -> bool {
    &&& items.len() == cells.len()
    &&& forall|i: int|
        0 <= i < cells.len() ==> mirrors_cell(#[trigger] items[i], cells[i])
}

spec fn mirrors_cell(item: ItemView, stored: StoredCell) -> bool {
    &&& item.key == seq![stored.date, stored.machine, agent_text(stored.key)]
    &&& item.counts.input == stored.cell.input_tokens
    &&& item.counts.output == stored.cell.output_tokens
    &&& item.counts.cache_creation == stored.cell.cache_creation_tokens
    &&& item.counts.cache_read == stored.cell.cache_read_tokens
    &&& item.cost == stored.cell.cost
}

spec fn used(cells: Seq<StoredCell>) -> Seq<StoredCell> {
    cells.filter(|stored: StoredCell| holds_usage(stored.cell))
}

proof fn lemma_mirrors_day(machine: Seq<char>, day: Day<Cost>, n: int)
    requires
        0 <= n <= day.cells@.len(),
    ensures
        mirrors(
            cell_items(machine, day.date@, day.cells@.take(n)),
            used(cells_of_day(machine, day).take(n)),
        ),
    decreases n,
{
    let pred = |stored: StoredCell| holds_usage(stored.cell);
    let all = cells_of_day(machine, day);
    if n == 0 {
        assert(day.cells@.take(0) =~= Seq::empty());
        all.take(0).lemma_filter_len(pred);
    } else {
        lemma_mirrors_day(machine, day, n - 1);
        assert(day.cells@.take(n).drop_last() =~= day.cells@.take(n - 1));
        assert(all.take(n) =~= all.take(n - 1).push(all[n - 1]));
        all.take(n - 1).lemma_filter_push(all[n - 1], pred);
        let cell = day.cells@[n - 1];
        assert(day.cells@.take(n).last() == cell);
        assert(cell.1.empty() == !holds_usage(cell.1));
    }
}

proof fn lemma_mirrors_days(machine: Seq<char>, days: Seq<Day<Cost>>)
    ensures
        mirrors(day_items(machine, days), used(cells_of_days(machine, days))),
    decreases days.len(),
{
    let pred = |stored: StoredCell| holds_usage(stored.cell);
    if days.len() == 0 {
        cells_of_days(machine, days).lemma_filter_len(pred);
    } else {
        let rest = days.drop_last();
        let last = days.last();
        lemma_mirrors_days(machine, rest);
        lemma_mirrors_day(machine, last, last.cells@.len() as int);
        assert(last.cells@.take(last.cells@.len() as int) =~= last.cells@);
        assert(cells_of_day(machine, last).take(last.cells@.len() as int) =~= cells_of_day(
            machine,
            last,
        ));
        Seq::filter_distributes_over_add(
            cells_of_days(machine, rest),
            cells_of_day(machine, last),
            pred,
        );
    }
}

proof fn lemma_mirrors(snapshots: Seq<MachineSnapshot>)
    ensures
        mirrors(snapshot_items(snapshots), used_cells(snapshots)),
    decreases snapshots.len(),
{
    let pred = |stored: StoredCell| holds_usage(stored.cell);
    if snapshots.len() == 0 {
        cells_of(snapshots).lemma_filter_len(pred);
    } else {
        let rest = snapshots.drop_last();
        let last = snapshots.last();
        lemma_mirrors(rest);
        lemma_mirrors_days(last.machine@, last.days@);
        Seq::filter_distributes_over_add(
            cells_of(rest),
            cells_of_days(last.machine@, last.days@),
            pred,
        );
    }
}

/// A merged row holds what the cells with usage of its date, machine and agent hold: its amounts
/// are their costs, in order, and each of its counts is the sum of theirs.
pub proof fn merged_rows_hold_their_cells(
    snapshots: Seq<MachineSnapshot>,
    rows: Seq<MergedRow<Vec<Cost>>>,
    i: int,
)
    requires
        is_merge(snapshot_items(snapshots), rows),
        0 <= i < rows.len(),
    ensures
        ({
            let row = rows[i];
            let own = own_cells(snapshots, row);
            &&& own.len() > 0
            &&& row.cost@ == own.map_values(|stored: StoredCell| stored.cell.cost)
            &&& row.input_tokens == sum_by(
                own,
                |stored: StoredCell| stored.cell.input_tokens as nat,
            )
            &&& row.output_tokens == sum_by(
                own,
                |stored: StoredCell| stored.cell.output_tokens as nat,
            )
            &&& row.cache_creation_tokens == sum_by(
                own,
                |stored: StoredCell| stored.cell.cache_creation_tokens as nat,
            )
            &&& row.cache_read_tokens == sum_by(
                own,
                |stored: StoredCell| stored.cell.cache_read_tokens as nat,
            )
        }),
{
    let items = snapshot_items(snapshots);
    let cells = used_cells(snapshots);
    let row = rows[i];
    let key = row.name();
    lemma_mirrors(snapshots);
    assert(is_merged_row(items, row));
    let pred = |stored: StoredCell| belongs(stored, row);
    let cell = |stored: StoredCell| stored.cell;
    assert forall|j: int| 0 <= j < cells.len() implies {
        &&& (items[j].key == key) == pred(#[trigger] cells[j])
        &&& items[j].counts.input == cell(cells[j]).input_tokens
        &&& items[j].counts.output == cell(cells[j]).output_tokens
        &&& items[j].counts.cache_creation == cell(cells[j]).cache_creation_tokens
        &&& items[j].counts.cache_read == cell(cells[j]).cache_read_tokens
        &&& items[j].cost == cell(cells[j]).cost
    } by {
        let stored = cells[j];
        assert(mirrors_cell(items[j], stored));
        lemma_agent_of_key(row.agent@, stored.key);
        let own = items[j].key;
        if own == key {
            assert(own[0] == key[0] && own[1] == key[1] && own[2] == key[2]);
        } else if pred(stored) {
            assert(own =~= key);
        }
    }
    lemma_read_off(items, cells, key, pred, cell);
    crate::sync::laws::lemma_key_listed(items, key);
    let own = own_cells(snapshots, row);
    assert(own.map_values(|stored: StoredCell| cell(stored).cost) =~= own.map_values(
        |stored: StoredCell| stored.cell.cost,
    ));
    lemma_sums_agree(own, cell);
}

proof fn lemma_sums_agree(own: Seq<StoredCell>, cell: spec_fn(StoredCell) -> CellTotals<Cost>)
    requires
        forall|stored: StoredCell| #[trigger] cell(stored) == stored.cell,
    ensures
        sum_by(own, |stored: StoredCell| cell(stored).input_tokens as nat) == sum_by(
            own,
            |stored: StoredCell| stored.cell.input_tokens as nat,
        ),
        sum_by(own, |stored: StoredCell| cell(stored).output_tokens as nat) == sum_by(
            own,
            |stored: StoredCell| stored.cell.output_tokens as nat,
        ),
        sum_by(own, |stored: StoredCell| cell(stored).cache_creation_tokens as nat) == sum_by(
            own,
            |stored: StoredCell| stored.cell.cache_creation_tokens as nat,
        ),
        sum_by(own, |stored: StoredCell| cell(stored).cache_read_tokens as nat) == sum_by(
            own,
            |stored: StoredCell| stored.cell.cache_read_tokens as nat,
        ),
    decreases own.len(),
{
    if own.len() > 0 {
        lemma_sums_agree(own.drop_last(), cell);
    }
}

/// Every cell with usage belongs to exactly one merged row, and the rows stand in the order of
/// their dates, then machines, then agents.
pub proof fn every_used_cell_has_one_row(
    snapshots: Seq<MachineSnapshot>,
    rows: Seq<MergedRow<Vec<Cost>>>,
)
    requires
        is_merge(snapshot_items(snapshots), rows),
    ensures
        forall|c: int|
            0 <= c < used_cells(snapshots).len() ==> exists|i: int|
                0 <= i < rows.len() && belongs(
                    #[trigger] used_cells(snapshots)[c],
                    #[trigger] rows[i],
                ),
        forall|i: int, j: int|
            0 <= i < j < rows.len() ==> {
                let a = #[trigger] rows[i];
                let b = #[trigger] rows[j];
                ||| text_lt(a.date@, b.date@)
                ||| a.date@ == b.date@ && text_lt(a.machine@, b.machine@)
                ||| a.date@ == b.date@ && a.machine@ == b.machine@ && text_lt(a.agent@, b.agent@)
            },
{
    let items = snapshot_items(snapshots);
    let cells = used_cells(snapshots);
    lemma_mirrors(snapshots);
    lemma_keys_of(items);
    assert forall|c: int| 0 <= c < cells.len() implies exists|i: int|
        0 <= i < rows.len() && belongs(#[trigger] cells[c], #[trigger] rows[i]) by {
        assert(mirrors_cell(items[c], cells[c]));
        let key = items[c].key;
        assert(keys_of(items).contains(key));
        let i = choose|i: int| 0 <= i < rows.len() && #[trigger] rows[i].name() == key;
        let name = rows[i].name();
        assert(name[0] == key[0] && name[1] == key[1] && name[2] == key[2]);
        lemma_agent_of_key(rows[i].agent@, cells[c].key);
        assert(belongs(cells[c], rows[i]));
    }
    assert forall|i: int, j: int| 0 <= i < j < rows.len() implies {
        let a = #[trigger] rows[i];
        let b = #[trigger] rows[j];
        ||| text_lt(a.date@, b.date@)
        ||| a.date@ == b.date@ && text_lt(a.machine@, b.machine@)
        ||| a.date@ == b.date@ && a.machine@ == b.machine@ && text_lt(a.agent@, b.agent@)
    } by {
        assert(key_lt(rows[i].name(), rows[j].name()));
        lemma_three_parts(rows[i].name(), rows[j].name());
    }
}

proof fn lemma_three_parts(a: Seq<Seq<char>>, b: Seq<Seq<char>>)
    requires
        a.len() == 3,
        b.len() == 3,
        key_lt(a, b),
    ensures
        text_lt(a[0], b[0]) || (a[0] == b[0] && text_lt(a[1], b[1])) || (a[0] == b[0] && a[1]
            == b[1] && text_lt(a[2], b[2])),
{
    reveal_with_fuel(crate::order::key_le, 4);
    let c = a.drop_first();
    let d = b.drop_first();
    assert(c[0] == a[1] && d[0] == b[1]);
    assert(c.drop_first()[0] == a[2] && d.drop_first()[0] == b[2]);
    if a[0] == b[0] && a[1] == b[1] && a[2] == b[2] {
        assert(a =~= b);
    }
}

/// The amounts of all rows, row by row.
pub open spec fn amounts_of(rows: Seq<MergedRow<Vec<Cost>>>) -> Seq<Cost>
    decreases rows.len(),
{
    if rows.len() == 0 {
        Seq::empty()
    } else {
        amounts_of(rows.drop_last()) + rows.last().cost@
    }
}

spec fn amounts_under(keys: Seq<Seq<Seq<char>>>, items: Seq<ItemView>) -> Seq<Cost>
    decreases keys.len(),
{
    if keys.len() == 0 {
        Seq::empty()
    } else {
        amounts_under(keys.drop_last(), items) + costs_of(under(items, keys.last()))
    }
}

proof fn lemma_amounts_push(keys: Seq<Seq<Seq<char>>>, items: Seq<ItemView>, item: ItemView)
    requires
        keys.no_duplicates(),
    ensures
        amounts_under(keys, items.push(item)).to_multiset() == (if keys.contains(item.key) {
            amounts_under(keys, items).to_multiset().insert(item.cost)
        } else {
            amounts_under(keys, items).to_multiset()
        }),
    decreases keys.len(),
{
    broadcast use vstd::seq_lib::group_to_multiset_ensures;

    if keys.len() > 0 {
        let rest = keys.drop_last();
        let last = keys.last();
        assert(rest.no_duplicates());
        lemma_amounts_push(rest, items, item);
        lemma_under_push(items, item, last);
        let a = amounts_under(rest, items);
        let b = costs_of(under(items, last));
        let grown = items.push(item);
        let c = amounts_under(rest, grown);
        let d = costs_of(under(grown, last));
        vstd::seq_lib::lemma_multiset_commutative(a, b);
        vstd::seq_lib::lemma_multiset_commutative(c, d);
        if item.key == last {
            assert(d =~= b.push(item.cost));
            assert(!rest.contains(item.key)) by {
                if rest.contains(item.key) {
                    let k = choose|k: int| 0 <= k < rest.len() && rest[k] == item.key;
                    assert(keys[k] == keys[keys.len() - 1]);
                }
            }
            assert(keys[keys.len() - 1] == item.key);
        } else {
            assert(d == b);
            if rest.contains(item.key) {
                let k = choose|k: int| 0 <= k < rest.len() && rest[k] == item.key;
                assert(keys[k] == item.key);
            }
            if keys.contains(item.key) {
                let k = choose|k: int| 0 <= k < keys.len() && keys[k] == item.key;
                assert(rest[k] == item.key);
            }
        }
        assert(amounts_under(keys, grown).to_multiset() =~= (if keys.contains(item.key) {
            amounts_under(keys, items).to_multiset().insert(item.cost)
        } else {
            amounts_under(keys, items).to_multiset()
        }));
    }
}

proof fn lemma_no_amounts(keys: Seq<Seq<Seq<char>>>)
    ensures
        amounts_under(keys, Seq::empty()) == Seq::<Cost>::empty(),
    decreases keys.len(),
{
    if keys.len() > 0 {
        lemma_no_amounts(keys.drop_last());
        let key = keys.last();
        Seq::<ItemView>::empty().lemma_filter_len(|item: ItemView| item.key == key);
        assert(amounts_under(keys, Seq::empty()) =~= Seq::<Cost>::empty());
    }
}

/// Where every key of the ledger is listed once, the amounts under the listed keys are those of
/// the items.
proof fn lemma_amounts(keys: Seq<Seq<Seq<char>>>, items: Seq<ItemView>)
    requires
        keys.no_duplicates(),
        forall|i: int| 0 <= i < items.len() ==> keys.contains(#[trigger] items[i].key),
    ensures
        amounts_under(keys, items).to_multiset() == costs_of(items).to_multiset(),
    decreases items.len(),
{
    broadcast use vstd::seq_lib::group_to_multiset_ensures;

    if items.len() == 0 {
        lemma_no_amounts(keys);
        assert(items =~= Seq::empty());
        assert(costs_of(items) =~= Seq::<Cost>::empty());
    } else {
        let rest = items.drop_last();
        let item = items.last();
        assert forall|i: int| 0 <= i < rest.len() implies keys.contains(#[trigger] rest[i].key) by {
            assert(rest[i].key == items[i].key);
        }
        lemma_amounts(keys, rest);
        assert(items =~= rest.push(item));
        assert(keys.contains(items[items.len() - 1].key));
        lemma_amounts_push(keys, rest, item);
        assert(costs_of(items) =~= costs_of(rest).push(item.cost));
    }
}

proof fn lemma_amounts_of_rows(
    items: Seq<ItemView>,
    rows: Seq<MergedRow<Vec<Cost>>>,
    keys: Seq<Seq<Seq<char>>>,
    n: int,
)
    requires
        0 <= n <= rows.len(),
        keys.len() == rows.len(),
        forall|i: int| 0 <= i < rows.len() ==> (#[trigger] rows[i]).cost@ == costs_of(
            under(items, keys[i]),
        ),
    ensures
        amounts_of(rows.take(n)) == amounts_under(keys.take(n), items),
    decreases n,
{
    if n > 0 {
        lemma_amounts_of_rows(items, rows, keys, n - 1);
        assert(rows.take(n).drop_last() =~= rows.take(n - 1));
        assert(keys.take(n).drop_last() =~= keys.take(n - 1));
        assert(rows.take(n).last() == rows[n - 1]);
        assert(keys.take(n).last() == keys[n - 1]);
    }
}

/// Merging loses and invents no amounts: the amounts of the merged rows together are the costs of
/// the cells with usage.
pub proof fn merging_keeps_every_amount(
    snapshots: Seq<MachineSnapshot>,
    rows: Seq<MergedRow<Vec<Cost>>>,
)
    requires
        is_merge(snapshot_items(snapshots), rows),
    ensures
        amounts_of(rows).to_multiset() == used_cells(snapshots).map_values(
            |stored: StoredCell| stored.cell.cost,
        ).to_multiset(),
{
    let items = snapshot_items(snapshots);
    let cells = used_cells(snapshots);
    let keys = rows.map_values(|row: MergedRow<Vec<Cost>>| row.name());
    lemma_mirrors(snapshots);
    lemma_keys_of(items);
    assert forall|i: int, j: int| 0 <= i < keys.len() && 0 <= j < keys.len() && i != j implies keys[i]
        != keys[j] by {
        if i < j {
            assert(key_lt(rows[i].name(), rows[j].name()));
        } else {
            assert(key_lt(rows[j].name(), rows[i].name()));
        }
    }
    assert forall|i: int| 0 <= i < items.len() implies keys.contains(#[trigger] items[i].key) by {
        assert(keys_of(items).contains(items[i].key));
        let k = choose|k: int| 0 <= k < rows.len() && #[trigger] rows[k].name() == items[i].key;
        assert(keys[k] == items[i].key);
    }
    lemma_amounts(keys, items);
    assert forall|i: int| 0 <= i < rows.len() implies (#[trigger] rows[i]).cost@ == costs_of(
        under(items, keys[i]),
    ) by {
        assert(is_merged_row(items, rows[i]));
    }
    lemma_amounts_of_rows(items, rows, keys, rows.len() as int);
    assert(rows.take(rows.len() as int) =~= rows);
    assert(keys.take(rows.len() as int) =~= keys);
    assert forall|i: int| 0 <= i < cells.len() implies items[i].cost == (
    #[trigger] cells[i]).cell.cost by {
        assert(mirrors_cell(items[i], cells[i]));
    }
    assert(costs_of(items) =~= cells.map_values(|stored: StoredCell| stored.cell.cost));
}

/// The rows with a date and an agent, whatever their machine, in order.
pub open spec fn rows_of_agent(
    rows: Seq<MergedRow<Cost>>,
    date: Seq<char>,
    agent: Seq<char>,
) -> Seq<MergedRow<Cost>> {
    rows.filter(|row: MergedRow<Cost>| row.date@ == date && row.agent@ == agent)
}

/// A collapsed row holds what the rows of its date and agent hold, whatever their machine: its
/// amounts are their costs, in order, each of its counts is the sum of theirs, and its machine is
/// that of the first of them.
pub proof fn collapsed_rows_hold_their_rows(
    rows: Seq<MergedRow<Cost>>,
    out: Seq<MergedRow<Vec<Cost>>>,
    i: int,
)
    requires
        is_collapse(rows, out),
        0 <= i < out.len(),
    ensures
        ({
            let own = rows_of_agent(rows, out[i].date@, out[i].agent@);
            &&& own.len() > 0
            &&& out[i].machine == own[0].machine
            &&& out[i].cost@ == own.map_values(|row: MergedRow<Cost>| row.cost)
            &&& out[i].input_tokens == sum_by(
                own,
                |row: MergedRow<Cost>| row.input_tokens as nat,
            )
            &&& out[i].output_tokens == sum_by(
                own,
                |row: MergedRow<Cost>| row.output_tokens as nat,
            )
            &&& out[i].cache_creation_tokens == sum_by(
                own,
                |row: MergedRow<Cost>| row.cache_creation_tokens as nat,
            )
            &&& out[i].cache_read_tokens == sum_by(
                own,
                |row: MergedRow<Cost>| row.cache_read_tokens as nat,
            )
        }),
{
    let items = machine_items(rows);
    let keys = keys_of(items);
    let row = out[i];
    let key = keys[i];
    assert(is_collapsed_row(rows, key, row));
    assert(key =~= seq![row.date@, row.agent@]);
    let pred = |r: MergedRow<Cost>| r.date@ == row.date@ && r.agent@ == row.agent@;
    let cell = |r: MergedRow<Cost>|
        CellTotals {
            input_tokens: r.input_tokens,
            output_tokens: r.output_tokens,
            cache_creation_tokens: r.cache_creation_tokens,
            cache_read_tokens: r.cache_read_tokens,
            cost: r.cost,
        };
    assert forall|j: int| 0 <= j < rows.len() implies {
        &&& (items[j].key == key) == pred(#[trigger] rows[j])
        &&& items[j].counts.input == cell(rows[j]).input_tokens
        &&& items[j].counts.output == cell(rows[j]).output_tokens
        &&& items[j].counts.cache_creation == cell(rows[j]).cache_creation_tokens
        &&& items[j].counts.cache_read == cell(rows[j]).cache_read_tokens
        &&& items[j].cost == cell(rows[j]).cost
    } by {
        let own = items[j].key;
        assert(own =~= seq![rows[j].date@, rows[j].agent@]);
        if own == key {
            assert(own[0] == key[0] && own[1] == key[1]);
        } else if pred(rows[j]) {
            assert(own =~= key);
        }
    }
    lemma_read_off(items, rows, key, pred, cell);
    crate::sync::laws::lemma_key_listed(items, key);
    assert(keys.contains(keys[i]));
    let own = rows.filter(pred);
    assert(own =~= rows_of_agent(rows, row.date@, row.agent@));
    assert(own.map_values(|r: MergedRow<Cost>| cell(r).cost) =~= own.map_values(
        |r: MergedRow<Cost>| r.cost,
    ));
    lemma_row_sums_agree(own, cell);
    let at = choose|at: int| #[trigger]
        crate::tally::is_first(items, key, at) && row.machine == rows[at].machine;
    assert(pred(rows[at]));
    assert forall|j: int| 0 <= j < at implies !pred(#[trigger] rows[j]) by {
        assert(items[j].key != key);
    }
    lemma_first_kept(rows, pred, at);
}

proof fn lemma_first_kept<T>(list: Seq<T>, pred: spec_fn(T) -> bool, at: int)
    requires
        0 <= at < list.len(),
        pred(list[at]),
        forall|j: int| 0 <= j < at ==> !pred(#[trigger] list[j]),
    ensures
        list.filter(pred).len() > 0,
        list.filter(pred)[0] == list[at],
{
    let front = list.take(at);
    let back = list.skip(at + 1);
    front.lemma_all_neg_filter_empty(pred);
    front.lemma_filter_push(list[at], pred);
    assert(list =~= front.push(list[at]) + back);
    Seq::filter_distributes_over_add(front.push(list[at]), back, pred);
}

proof fn lemma_row_sums_agree(
    own: Seq<MergedRow<Cost>>,
    cell: spec_fn(MergedRow<Cost>) -> CellTotals<Cost>,
)
    requires
        forall|r: MergedRow<Cost>|
            (#[trigger] cell(r)).input_tokens == r.input_tokens && cell(r).output_tokens
                == r.output_tokens && cell(r).cache_creation_tokens == r.cache_creation_tokens
                && cell(r).cache_read_tokens == r.cache_read_tokens,
    ensures
        sum_by(own, |r: MergedRow<Cost>| cell(r).input_tokens as nat) == sum_by(
            own,
            |r: MergedRow<Cost>| r.input_tokens as nat,
        ),
        sum_by(own, |r: MergedRow<Cost>| cell(r).output_tokens as nat) == sum_by(
            own,
            |r: MergedRow<Cost>| r.output_tokens as nat,
        ),
        sum_by(own, |r: MergedRow<Cost>| cell(r).cache_creation_tokens as nat) == sum_by(
            own,
            |r: MergedRow<Cost>| r.cache_creation_tokens as nat,
        ),
        sum_by(own, |r: MergedRow<Cost>| cell(r).cache_read_tokens as nat) == sum_by(
            own,
            |r: MergedRow<Cost>| r.cache_read_tokens as nat,
        ),
    decreases own.len(),
{
    if own.len() > 0 {
        lemma_row_sums_agree(own.drop_last(), cell);
    }
}

/// Collapsing loses and invents no amounts: the amounts of the collapsed rows together are the
/// costs of the rows.
pub proof fn collapsing_keeps_every_amount(
    rows: Seq<MergedRow<Cost>>,
    out: Seq<MergedRow<Vec<Cost>>>,
)
    requires
        is_collapse(rows, out),
    ensures
        amounts_of(out).to_multiset() == rows.map_values(
            |row: MergedRow<Cost>| row.cost,
        ).to_multiset(),
{
    let items = machine_items(rows);
    let keys = keys_of(items);
    lemma_keys_of(items);
    lemma_amounts(keys, items);
    assert forall|i: int| 0 <= i < out.len() implies (#[trigger] out[i]).cost@ == costs_of(
        under(items, keys[i]),
    ) by {
        assert(is_collapsed_row(rows, keys[i], out[i]));
    }
    lemma_amounts_of_rows(items, out, keys, out.len() as int);
    assert(out.take(out.len() as int) =~= out);
    assert(keys.take(out.len() as int) =~= keys);
    assert(costs_of(items) =~= rows.map_values(|row: MergedRow<Cost>| row.cost));
}

/// The usage row has the date, and the key is made of its agent and model.
pub open spec fn is_of_cell(row: SyncUsageRow, date: Seq<char>, key: Seq<char>) -> bool {
    row.date@ == date && row.agent@.push(KEY_SEPARATOR) + row.model@ == key
}

/// The usage rows with a date and a cell key, in order.
pub open spec fn rows_of_cell(
    rows: Seq<SyncUsageRow>,
    date: Seq<char>,
    key: Seq<char>,
) -> Seq<SyncUsageRow> {
    rows.filter(|row: SyncUsageRow| is_of_cell(row, date, key))
}

/// A cell of a day map holds what the usage rows of its date, agent and model hold: its amounts
/// are their costs, in order, and each of its counts is the sum of theirs.
pub proof fn day_cells_hold_their_rows(
    rows: Seq<SyncUsageRow>,
    days: Seq<Day<Vec<Cost>>>,
    d: int,
    c: int,
)
    requires
        is_day_map(row_items(rows), days),
        0 <= d < days.len(),
        0 <= c < days[d].cells@.len(),
    ensures
        ({
            let own = rows_of_cell(rows, days[d].date@, days[d].cells@[c].0@);
            let cell = days[d].cells@[c].1;
            &&& own.len() > 0
            &&& cell.cost@ == own.map_values(|row: SyncUsageRow| row.cost)
            &&& cell.input_tokens == sum_by(own, |row: SyncUsageRow| row.input_tokens as nat)
            &&& cell.output_tokens == sum_by(own, |row: SyncUsageRow| row.output_tokens as nat)
            &&& cell.cache_creation_tokens == sum_by(
                own,
                |row: SyncUsageRow| row.cache_creation_tokens as nat,
            )
            &&& cell.cache_read_tokens == sum_by(
                own,
                |row: SyncUsageRow| row.cache_read_tokens as nat,
            )
        }),
{
    let items = row_items(rows);
    let key = day_key(days, d, c);
    let date = days[d].date@;
    let text = days[d].cells@[c].0@;
    assert(has_cell(days, d, c));
    assert(is_day_cell(items, key, days[d].cells@[c].1));
    let pred = |r: SyncUsageRow| is_of_cell(r, date, text);
    let cell = |r: SyncUsageRow|
        CellTotals {
            input_tokens: r.input_tokens,
            output_tokens: r.output_tokens,
            cache_creation_tokens: r.cache_creation_tokens,
            cache_read_tokens: r.cache_read_tokens,
            cost: r.cost,
        };
    assert forall|j: int| 0 <= j < rows.len() implies {
        &&& (items[j].key == key) == pred(#[trigger] rows[j])
        &&& items[j].counts.input == cell(rows[j]).input_tokens
        &&& items[j].counts.output == cell(rows[j]).output_tokens
        &&& items[j].counts.cache_creation == cell(rows[j]).cache_creation_tokens
        &&& items[j].counts.cache_read == cell(rows[j]).cache_read_tokens
        &&& items[j].cost == cell(rows[j]).cost
    } by {
        let own = items[j].key;
        assert(own =~= seq![rows[j].date@, rows[j].agent@.push(KEY_SEPARATOR) + rows[j].model@]);
        if own == key {
            assert(own[0] == key[0] && own[1] == key[1]);
        } else if pred(rows[j]) {
            assert(own =~= key);
        }
    }
    lemma_read_off(items, rows, key, pred, cell);
    crate::sync::laws::lemma_key_listed(items, key);
    let own = rows.filter(pred);
    assert(own =~= rows_of_cell(rows, date, text));
    assert(own.map_values(|r: SyncUsageRow| cell(r).cost) =~= own.map_values(
        |r: SyncUsageRow| r.cost,
    ));
    lemma_usage_sums_agree(own, cell);
}

proof fn lemma_usage_sums_agree(
    own: Seq<SyncUsageRow>,
    cell: spec_fn(SyncUsageRow) -> CellTotals<Cost>,
)
    requires
        forall|r: SyncUsageRow|
            (#[trigger] cell(r)).input_tokens == r.input_tokens && cell(r).output_tokens
                == r.output_tokens && cell(r).cache_creation_tokens == r.cache_creation_tokens
                && cell(r).cache_read_tokens == r.cache_read_tokens,
    ensures
        sum_by(own, |r: SyncUsageRow| cell(r).input_tokens as nat) == sum_by(
            own,
            |r: SyncUsageRow| r.input_tokens as nat,
        ),
        sum_by(own, |r: SyncUsageRow| cell(r).output_tokens as nat) == sum_by(
            own,
            |r: SyncUsageRow| r.output_tokens as nat,
        ),
        sum_by(own, |r: SyncUsageRow| cell(r).cache_creation_tokens as nat) == sum_by(
            own,
            |r: SyncUsageRow| r.cache_creation_tokens as nat,
        ),
        sum_by(own, |r: SyncUsageRow| cell(r).cache_read_tokens as nat) == sum_by(
            own,
            |r: SyncUsageRow| r.cache_read_tokens as nat,
        ),
    decreases own.len(),
{
    if own.len() > 0 {
        lemma_usage_sums_agree(own.drop_last(), cell);
    }
}

/// Every usage row has a cell of its date under its agent and model.
pub proof fn every_usage_row_has_a_cell(
    rows: Seq<SyncUsageRow>,
    days: Seq<Day<Vec<Cost>>>,
    i: int,
)
    requires
        is_day_map(row_items(rows), days),
        0 <= i < rows.len(),
    ensures
        exists|d: int, c: int|
            0 <= d < days.len() && 0 <= c < days[d].cells@.len() && days[d].date@ == rows[i].date@
                && (#[trigger] days[d].cells@[c]).0@ == rows[i].agent@.push(KEY_SEPARATOR)
                + rows[i].model@,
{
    let items = row_items(rows);
    lemma_keys_of(items);
    let key = items[i].key;
    assert(keys_of(items).contains(key));
    let (d, c) = choose|d: int, c: int| #[trigger]
        has_cell(days, d, c) && day_key(days, d, c) == key;
    assert(day_key(days, d, c)[0] == key[0] && day_key(days, d, c)[1] == key[1]);
    assert(days[d].cells@[c].0@ == key[1]);
}

} // verus!
