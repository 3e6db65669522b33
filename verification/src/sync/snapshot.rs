//! Snapshots of a machine's usage by day, and the rows that merging them gives.

use vstd::prelude::*;
use crate::all::rows::SyncUsageRow;
use crate::cost::Cost;
use crate::order::{key_le, key_lt, key_view, same_text, text_lt};
use crate::sort::reversed;
use crate::tally::{
    costs_of, group, group_sorted, is_group, is_sorted_grouping, keys_of, lemma_keys_of, ledger,
    total, totals_fit, under, CellTotals, Counts, Group, Item, ItemView,
};
use crate::text::{first_at, lemma_first_at, lemma_first_at_unique, split_once};
use vstd::string::*;

verus! {

/// The character between agent and model in a cell key. It appears in no agent or model name.
pub const KEY_SEPARATOR: char = '\u{1}';

/// The cells of one day, by cell key.
#[derive(Debug)]
pub struct Day<C> {
    pub date: String,
    pub cells: Vec<(String, CellTotals<C>)>,
}

/// What one machine publishes.
#[derive(Debug)]
pub struct MachineSnapshot {
    pub version: u32,
    pub machine: String,
    pub generated_at: String,
    pub days: Vec<Day<Cost>>,
}

/// One coalesced row. A row that is being added up has as its cost the amounts still to be
/// added, in order.
#[derive(Debug)]
pub struct MergedRow<C> {
    pub date: String,
    pub machine: String,
    pub agent: String,
    pub input_tokens: u64,
    pub output_tokens: u64,
    pub cache_creation_tokens: u64,
    pub cache_read_tokens: u64,
    pub cost: C,
}

impl<C> MergedRow<C> {
    /// The four token counts.
    pub open spec fn counts(self) -> Counts {
        Counts {
            input: self.input_tokens as nat,
            output: self.output_tokens as nat,
            cache_creation: self.cache_creation_tokens as nat,
            cache_read: self.cache_read_tokens as nat,
        }
    }

    /// What rows are sorted by: date, machine and agent.
    pub open spec fn name(self) -> Seq<Seq<char>> {
        seq![self.date@, self.machine@, self.agent@]
    }
}

impl MergedRow<Vec<Cost>> {
    /// The row with the sum of its amounts in place of the amounts.
    pub fn settle(self, cost: Cost) -> (out: MergedRow<Cost>)
        ensures
            out.name() == self.name(),
            out.date == self.date,
            out.machine == self.machine,
            out.agent == self.agent,
            out.counts() == self.counts(),
            out.input_tokens == self.input_tokens,
            out.output_tokens == self.output_tokens,
            out.cache_creation_tokens == self.cache_creation_tokens,
            out.cache_read_tokens == self.cache_read_tokens,
            out.cost == cost,
    {
        MergedRow {
            date: self.date,
            machine: self.machine,
            agent: self.agent,
            input_tokens: self.input_tokens,
            output_tokens: self.output_tokens,
            cache_creation_tokens: self.cache_creation_tokens,
            cache_read_tokens: self.cache_read_tokens,
            cost,
        }
    }
}

impl CellTotals<Vec<Cost>> {
    /// Adds the counts of a row, and its cost to the amounts to be added.
    pub fn add_row(&mut self, row: &SyncUsageRow)
        requires
            old(self).counts().plus(row.counts()).fit(),
        ensures
            final(self).counts() == old(self).counts().plus(row.counts()),
            final(self).input_tokens == old(self).input_tokens + row.input_tokens,
            final(self).output_tokens == old(self).output_tokens + row.output_tokens,
            final(self).cache_creation_tokens == old(self).cache_creation_tokens + row.cache_creation_tokens,
            final(self).cache_read_tokens == old(self).cache_read_tokens + row.cache_read_tokens,
            final(self).cost@ == old(self).cost@.push(row.cost),
    {
        self.add_cell(&row.cell());
    }
}

/// The key of a cell: agent and model with the separator between them.
pub open spec fn key_text(agent: Seq<char>, model: Seq<char>) -> Seq<char> {
    agent.push(KEY_SEPARATOR) + model
}

/// The agent in a cell key: the text before the first separator.
pub open spec fn agent_text(key: Seq<char>) -> Seq<char> {
    key.take(first_at(key, KEY_SEPARATOR))
}

/// Agent and model encoded into one key.
pub fn cell_key(agent: &str, model: &str) -> (out: String)
    ensures
        out@ == key_text(agent@, model@),
{
    let mut out = String::new();
    out.append(agent);
    assert(out@ =~= agent@);
    out.push(KEY_SEPARATOR);
    out.append(model);
    out
}

/// The agent in a cell key; a key without separator is an agent.
pub fn agent_of_key(key: &str) -> (out: String)
    ensures
        out@ == agent_text(key@),
{
    proof {
        lemma_first_at(key@, KEY_SEPARATOR);
    }
    match split_once(key, KEY_SEPARATOR) {
        Some(halves) => halves.0,
        None => {
            let mut out = String::new();
            out.append(key);
            assert(out@ =~= key@);
            assert(key@.take(key@.len() as int) =~= key@);
            out
        },
    }
}

/// Splitting a cell key is unambiguous: the agent comes back, and two keys are the same only for
/// the same agent and model, as long as agents are free of the separator.
pub proof fn cell_keys_are_unambiguous(
    agent: Seq<char>,
    model: Seq<char>,
    other_agent: Seq<char>,
    other_model: Seq<char>,
)
    requires
        !agent.contains(KEY_SEPARATOR),
        !other_agent.contains(KEY_SEPARATOR),
    ensures
        agent_text(key_text(agent, model)) == agent,
        key_text(agent, model) == key_text(other_agent, other_model) ==> agent == other_agent && model
            == other_model,
{
    let key = key_text(agent, model);
    let other = key_text(other_agent, other_model);
    assert forall|i: int| 0 <= i < agent.len() implies key[i] != KEY_SEPARATOR by {
        assert(agent.contains(agent[i]));
    }
    lemma_first_at_unique(key, KEY_SEPARATOR, agent.len() as int);
    assert(key.take(agent.len() as int) =~= agent);
    assert forall|i: int| 0 <= i < other_agent.len() implies other[i] != KEY_SEPARATOR by {
        assert(other_agent.contains(other_agent[i]));
    }
    lemma_first_at_unique(other, KEY_SEPARATOR, other_agent.len() as int);
    assert(other.take(other_agent.len() as int) =~= other_agent);
    assert(key.skip(agent.len() as int + 1) =~= model);
    assert(other.skip(other_agent.len() as int + 1) =~= other_model);
}

/// What a usage row puts into the day map: its totals under its date and cell key.
pub open spec fn row_item(row: SyncUsageRow) -> ItemView {
    ItemView {
        key: seq![row.date@, key_text(row.agent@, row.model@)],
        counts: row.counts(),
        cost: row.cost,
    }
}

/// What usage rows put into the day map.
pub open spec fn row_items(rows: Seq<SyncUsageRow>) -> Seq<ItemView> {
    rows.map_values(|row: SyncUsageRow| row_item(row))
}

/// Days and the cells of a day are in strictly ascending order, and no day is without cells.
pub open spec fn days_in_order<C>(days: Seq<Day<C>>) -> bool {
    &&& forall|i: int, j: int|
        0 <= i < j < days.len() ==> text_lt(#[trigger] days[i].date@, #[trigger] days[j].date@)
    &&& forall|d: int| 0 <= d < days.len() ==> #[trigger] cells_in_order(days[d].cells@)
}

/// The cells are in strictly ascending order of their keys, and there is one.
pub open spec fn cells_in_order<C>(cells: Seq<(String, CellTotals<C>)>) -> bool {
    &&& cells.len() > 0
    &&& forall|i: int, j: int|
        0 <= i < j < cells.len() ==> text_lt((#[trigger] cells[i]).0@, (#[trigger] cells[j]).0@)
}

/// The key under which a cell of a day map stands.
pub open spec fn day_key<C>(days: Seq<Day<C>>, d: int, c: int) -> Seq<Seq<char>> {
    seq![days[d].date@, days[d].cells@[c].0@]
}

/// `d` and `c` are the places of a day and of a cell of that day.
pub open spec fn has_cell<C>(days: Seq<Day<C>>, d: int, c: int) -> bool {
    0 <= d < days.len() && 0 <= c < days[d].cells@.len()
}

/// `days` is the day map of a ledger: one cell per date and cell key, with the totals of its
/// items.
pub open spec fn is_day_map(items: Seq<ItemView>, days: Seq<Day<Vec<Cost>>>) -> bool {
    &&& days_in_order(days)
    &&& forall|d: int, c: int| #[trigger]
        has_cell(days, d, c) ==> is_day_cell(items, day_key(days, d, c), days[d].cells@[c].1)
    &&& forall|key: Seq<Seq<char>>| #[trigger]
        keys_of(items).contains(key) ==> exists|d: int, c: int| #[trigger]
            has_cell(days, d, c) && day_key(days, d, c) == key
}

/// `cell` holds the totals that the ledger has under a key of its.
pub open spec fn is_day_cell(
    items: Seq<ItemView>,
    key: Seq<Seq<char>>,
    cell: CellTotals<Vec<Cost>>,
) -> bool {
    &&& keys_of(items).contains(key)
    &&& cell.counts() == total(under(items, key))
    &&& cell.cost@ == costs_of(under(items, key))
}

fn items_of_rows(rows: &Vec<SyncUsageRow>) -> (items: Vec<Item>)
    ensures
        ledger(items@) == row_items(rows@),
{
    let mut items: Vec<Item> = Vec::new();
    let mut i: usize = 0;
    while i < rows.len()
        invariant
            i <= rows@.len(),
            ledger(items@) =~= row_items(rows@).take(i as int),
        decreases rows@.len() - i,
    {
        let row = &rows[i];
        let mut key: Vec<String> = Vec::new();
        key.push(row.date.clone());
        key.push(cell_key(row.agent.as_str(), row.model.as_str()));
        let ghost before = ledger(items@);
        let item = Item { key, cell: row.cell() };
        assert(key_view(key@) =~= seq![row.date@, key_text(row.agent@, row.model@)]);
        assert(item@ == row_item(rows@[i as int]));
        items.push(item);
        assert(ledger(items@) =~= before.push(item@));
        i = i + 1;
    }
    items
}

/// Whether the token counts of every date, agent and model of the rows fit.
pub fn rows_fit(rows: &Vec<SyncUsageRow>) -> (r: bool)
    ensures
        r == totals_fit(row_items(rows@)),
{
    group(items_of_rows(rows)).is_some()
}

proof fn lemma_two_part_keys(date: Seq<char>, text: Seq<char>, later_date: Seq<char>, later_text: Seq<char>)
    requires
        key_lt(seq![date, text], seq![later_date, later_text]),
    ensures
        date == later_date ==> text_lt(text, later_text),
        date != later_date ==> text_lt(date, later_date),
{
    reveal_with_fuel(key_le, 3);
    let a = seq![date, text];
    let b = seq![later_date, later_text];
    assert(a.drop_first() =~= seq![text]);
    assert(b.drop_first() =~= seq![later_text]);
    if date == later_date {
        if text == later_text {
            assert(a =~= b);
        }
    }
}

/// The groups that have gone into the day map so far are those before `n`.
spec fn nesting(items: Seq<ItemView>, all: Seq<Group>, n: int, days: Seq<Day<Vec<Cost>>>) -> bool {
    &&& days_in_order(days)
    &&& forall|d: int, c: int| #[trigger]
        has_cell(days, d, c) ==> is_day_cell(items, day_key(days, d, c), days[d].cells@[c].1)
    &&& forall|g: int|
        0 <= g < n ==> exists|d: int, c: int| #[trigger]
            has_cell(days, d, c) && day_key(days, d, c) == (#[trigger] all[g]).name()
    &&& n > 0 ==> days.len() > 0 && day_key(
        days,
        days.len() - 1,
        days[days.len() - 1].cells@.len() - 1,
    ) == all[n - 1].name()
    &&& n == 0 ==> days.len() == 0
}

proof fn lemma_new_day(
    items: Seq<ItemView>,
    all: Seq<Group>,
    n: int,
    before: Seq<Day<Vec<Cost>>>,
    after: Seq<Day<Vec<Cost>>>,
)
    requires
        is_sorted_grouping(items, all),
        0 <= n < all.len(),
        all[n].name().len() == 2,
        nesting(items, all, n, before),
        before.len() > 0 ==> before.last().date@ != all[n].name()[0],
        after.len() == before.len() + 1,
        after.drop_last() == before,
        after.last().date@ == all[n].name()[0],
        after.last().cells@.len() == 1,
        after.last().cells@[0].0@ == all[n].name()[1],
        after.last().cells@[0].1 == all[n].totals,
    ensures
        nesting(items, all, n + 1, after),
{
    let last = before.len() as int;
    let name = all[n].name();
    assert(name =~= seq![name[0], name[1]]);
    assert(forall|d: int| 0 <= d < last ==> after[d] == before[d]);
    assert(is_group(items, name, all[n]));
    assert(all[n].name() == name);
    assert(keys_of(items).contains(name));
    assert(day_key(after, last, 0) =~= name);
    assert forall|i: int, j: int| 0 <= i < j < after.len() implies text_lt(
        #[trigger] after[i].date@,
        #[trigger] after[j].date@,
    ) by {
        if j == last {
            let m = last - 1;
            let text = before[m].cells@[before[m].cells@.len() - 1].0@;
            assert(key_lt(all[n - 1].name(), all[n].name()));
            lemma_two_part_keys(before[m].date@, text, name[0], name[1]);
            if i < m {
                assert(text_lt(before[i].date@, before[m].date@));
                crate::order::lemma_text_transitive(before[i].date@, before[m].date@, name[0]);
                crate::order::lemma_text_order(before[i].date@, before[m].date@);
                crate::order::lemma_text_order(before[m].date@, name[0]);
            }
        } else {
            assert(text_lt(before[i].date@, before[j].date@));
        }
    }
    assert forall|d: int| 0 <= d < after.len() implies #[trigger] cells_in_order(after[d].cells@) by {
        if d < last {
            assert(cells_in_order(before[d].cells@));
        }
    }
    assert forall|d: int, c: int| #[trigger] has_cell(after, d, c) implies is_day_cell(
        items,
        day_key(after, d, c),
        after[d].cells@[c].1,
    ) by {
        if d < last {
            assert(has_cell(before, d, c));
            assert(day_key(after, d, c) == day_key(before, d, c));
        }
    }
    assert forall|g: int| 0 <= g < n + 1 implies exists|d: int, c: int| #[trigger]
        has_cell(after, d, c) && day_key(after, d, c) == (#[trigger] all[g]).name() by {
        if g < n {
            let (d, c) = choose|d: int, c: int| #[trigger]
                has_cell(before, d, c) && day_key(before, d, c) == all[g].name();
            assert(has_cell(after, d, c));
            assert(day_key(after, d, c) == day_key(before, d, c));
        } else {
            assert(has_cell(after, last, 0));
        }
    }
}

proof fn lemma_same_day(
    items: Seq<ItemView>,
    all: Seq<Group>,
    n: int,
    before: Seq<Day<Vec<Cost>>>,
    after: Seq<Day<Vec<Cost>>>,
)
    requires
        is_sorted_grouping(items, all),
        0 <= n < all.len(),
        all[n].name().len() == 2,
        nesting(items, all, n, before),
        before.len() > 0,
        before.last().date@ == all[n].name()[0],
        after.len() == before.len(),
        after.drop_last() == before.drop_last(),
        after.last().date == before.last().date,
        after.last().cells@.len() == before.last().cells@.len() + 1,
        after.last().cells@.drop_last() == before.last().cells@,
        after.last().cells@.last().0@ == all[n].name()[1],
        after.last().cells@.last().1 == all[n].totals,
    ensures
        nesting(items, all, n + 1, after),
{
    let last = before.len() - 1;
    let end = before[last].cells@.len() as int;
    let name = all[n].name();
    assert(name =~= seq![name[0], name[1]]);
    assert forall|d: int| 0 <= d < last implies after[d] == before[d] by {
        assert(after[d] == after.drop_last()[d]);
        assert(before[d] == before.drop_last()[d]);
    }
    assert forall|c: int| 0 <= c < end implies after[last].cells@[c] == before[last].cells@[c] by {
        assert(after[last].cells@[c] == after[last].cells@.drop_last()[c]);
    }
    assert(is_group(items, name, all[n]));
    assert(keys_of(items).contains(name));
    assert(day_key(after, last, end) =~= name);
    assert(n > 0);
    assert(cells_in_order(before[last].cells@));
    let text = before[last].cells@[end - 1].0@;
    assert(key_lt(all[n - 1].name(), all[n].name()));
    assert(all[n - 1].name() =~= seq![before[last].date@, text]);
    lemma_two_part_keys(before[last].date@, text, name[0], name[1]);
    assert forall|i: int, j: int| 0 <= i < j < after[last].cells@.len() implies text_lt(
        (#[trigger] after[last].cells@[i]).0@,
        (#[trigger] after[last].cells@[j]).0@,
    ) by {
        let cells = before[last].cells@;
        if j == end {
            if i < end - 1 {
                assert(text_lt(cells[i].0@, cells[end - 1].0@));
                crate::order::lemma_text_transitive(cells[i].0@, text, name[1]);
                crate::order::lemma_text_order(cells[i].0@, text);
                crate::order::lemma_text_order(text, name[1]);
            }
        } else {
            assert(text_lt(cells[i].0@, cells[j].0@));
        }
    }
    assert forall|i: int, j: int| 0 <= i < j < after.len() implies text_lt(
        #[trigger] after[i].date@,
        #[trigger] after[j].date@,
    ) by {
        assert(text_lt(before[i].date@, before[j].date@));
    }
    assert forall|d: int| 0 <= d < after.len() implies #[trigger] cells_in_order(after[d].cells@) by {
        if d < last {
            assert(cells_in_order(before[d].cells@));
        }
    }
    assert forall|d: int, c: int| #[trigger] has_cell(after, d, c) implies is_day_cell(
        items,
        day_key(after, d, c),
        after[d].cells@[c].1,
    ) by {
        if d < last || c < end {
            assert(has_cell(before, d, c));
            assert(day_key(after, d, c) == day_key(before, d, c));
        }
    }
    assert forall|g: int| 0 <= g < n + 1 implies exists|d: int, c: int| #[trigger]
        has_cell(after, d, c) && day_key(after, d, c) == (#[trigger] all[g]).name() by {
        if g < n {
            let (d, c) = choose|d: int, c: int| #[trigger]
                has_cell(before, d, c) && day_key(before, d, c) == all[g].name();
            assert(has_cell(after, d, c));
            assert(day_key(after, d, c) == day_key(before, d, c));
        } else {
            assert(has_cell(after, last, end));
        }
    }
}

fn nest_groups(groups: Vec<Group>, Ghost(items): Ghost<Seq<ItemView>>) -> (days: Vec<Day<Vec<Cost>>>)
    requires
        is_sorted_grouping(items, groups@),
        forall|key: Seq<Seq<char>>| #[trigger] keys_of(items).contains(key) ==> key.len() == 2,
    ensures
        is_day_map(items, days@),
{
    let ghost all = groups@;
    let mut rest = reversed(groups);
    let mut days: Vec<Day<Vec<Cost>>> = Vec::new();
    let ghost mut n: int = 0;
    assert(rest@.reverse() =~= all.skip(0));
    while rest.len() > 0
        invariant
            is_sorted_grouping(items, all),
            forall|key: Seq<Seq<char>>| #[trigger] keys_of(items).contains(key) ==> key.len() == 2,
            0 <= n <= all.len(),
            rest@.reverse() =~= all.skip(n),
            nesting(items, all, n, days@),
        decreases rest@.len(),
    {
        proof {
            assert(rest@.reverse().len() == all.skip(n).len());
            assert(rest@.last() == rest@.reverse()[0]);
            assert(rest@.last() == all[n]);
            assert(is_group(items, all[n].name(), all[n]));
            assert(keys_of(items).contains(all[n].name()));
        }
        if let Some(next) = rest.pop() {
            let mut key = next.key;
            let ghost name = all[n].name();
            assert(key@.len() == 2);
            assert(key@[1]@ == name[1] && key@[0]@ == name[0]);
            let text = key.pop();
            let date = key.pop();
            if let (Some(text), Some(date)) = (text, date) {
                let count: usize = days.len();
                let ghost before = days@;
                if count > 0 && same_text(days[count - 1].date.as_str(), date.as_str()) {
                    days[count - 1].cells.push((text, next.totals));
                    proof {
                        assert(days@.drop_last() =~= before.drop_last());
                        assert(days@.last().cells@.drop_last() =~= before.last().cells@);
                        lemma_same_day(items, all, n, before, days@);
                    }
                } else {
                    let mut cells: Vec<(String, CellTotals<Vec<Cost>>)> = Vec::new();
                    cells.push((text, next.totals));
                    days.push(Day { date, cells });
                    proof {
                        assert(days@.drop_last() =~= before);
                        lemma_new_day(items, all, n, before, days@);
                    }
                }
            }
            proof {
                assert(all.skip(n + 1) =~= all.skip(n).drop_first());
                n = n + 1;
            }
        }
    }
    proof {
        assert(all.skip(n).len() == 0);
        assert forall|key: Seq<Seq<char>>| #[trigger] keys_of(items).contains(key) implies exists|
            d: int,
            c: int,
        | #[trigger] has_cell(days@, d, c) && day_key(days@, d, c) == key by {
            let g = choose|g: int| 0 <= g < all.len() && #[trigger] all[g].name() == key;
            assert(all[g].name() == key);
        }
    }
    days
}

/// Adds up usage rows per date, agent and model.
pub fn day_map_from_rows(rows: &Vec<SyncUsageRow>) -> (days: Vec<Day<Vec<Cost>>>)
    requires
        totals_fit(row_items(rows@)),
    ensures
        is_day_map(row_items(rows@), days@),
{
    match group_sorted(items_of_rows(rows)) {
        Some(groups) => {
            proof {
                lemma_keys_have_two_parts(rows@);
            }
            nest_groups(groups, Ghost(row_items(rows@)))
        },
        None => Vec::new(),
    }
}

proof fn lemma_keys_have_two_parts(rows: Seq<SyncUsageRow>)
    ensures
        forall|key: Seq<Seq<char>>| #[trigger]
            keys_of(row_items(rows)).contains(key) ==> key.len() == 2,
{
    let items = row_items(rows);
    lemma_keys_of(items);
    assert forall|key: Seq<Seq<char>>| #[trigger] keys_of(items).contains(key) implies key.len() == 2 by {
        let i = choose|i: int| 0 <= i < items.len() && #[trigger] items[i].key == key;
        assert(items[i] == row_item(rows[i]));
    }
}

/// The totals of a cell of a day map, where the map has it.
pub fn cell_at<'a, C>(days: &'a Vec<Day<C>>, date: &str, key: &str) -> (out: Option<
    &'a CellTotals<C>,
>)
    ensures
        match out {
            Some(cell) => exists|d: int, c: int| #[trigger]
                has_cell(days@, d, c) && day_key(days@, d, c) == seq![date@, key@]
                    && days@[d].cells@[c].1 == cell,
            None => forall|d: int, c: int| #[trigger]
                has_cell(days@, d, c) ==> day_key(days@, d, c) != seq![date@, key@],
        },
{
    let mut d: usize = 0;
    while d < days.len()
        invariant
            d <= days@.len(),
            forall|i: int, c: int| #[trigger]
                has_cell(days@, i, c) && i < d ==> day_key(days@, i, c) != seq![date@, key@],
        decreases days@.len() - d,
    {
        let day = &days[d];
        let mut c: usize = 0;
        while c < day.cells.len()
            invariant
                d < days@.len(),
                *day == days@[d as int],
                c <= day.cells@.len(),
                forall|i: int, j: int| #[trigger]
                    has_cell(days@, i, j) && (i < d || (i == d && j < c)) ==> day_key(days@, i, j)
                        != seq![date@, key@],
            decreases day.cells@.len() - c,
        {
            proof {
                let name = day_key(days@, d as int, c as int);
                if name == seq![date@, key@] {
                    assert(name[0] == date@ && name[1] == key@);
                } else if days@[d as int].date@ == date@ && day.cells@[c as int].0@ == key@ {
                    assert(name =~= seq![date@, key@]);
                }
            }
            if same_text(day.date.as_str(), date) && same_text(day.cells[c].0.as_str(), key) {
                assert(has_cell(days@, d as int, c as int));
                return Some(&day.cells[c].1);
            }
            c = c + 1;
        }
        d = d + 1;
    }
    None
}

} // verus!
