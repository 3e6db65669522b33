//! The report of a sync, as a document and as a table.

use vstd::prelude::*;
use vstd::string::*;
use crate::cost::Cost;
use crate::json::{
    array, fields_model, items_model, object, put, text_array, texts_model, Json, JsonModel,
};
use crate::names::{add_name, is_sorted_set};
use crate::order::same_text;
use crate::sync::repo::{machine_label, machines_text};
use crate::sync::snapshot::MergedRow;
use crate::table::{
    cells_view, contents_view, lines_view, paint_all, painted, push_cells, push_separator, text,
    Align, Cell, CellModel, Content, ContentModel, Line, LineModel, Paint, Table,
};
use crate::tally::{Counts, CellTotals};
use crate::text::{concat3, decimal, number, texts};

verus! {

/// The token counts of all rows together.
pub open spec fn rows_total<C>(rows: Seq<MergedRow<C>>) -> Counts
    decreases rows.len(),
{
    if rows.len() == 0 {
        Counts::none()
    } else {
        rows_total(rows.drop_last()).plus(rows.last().counts())
    }
}

/// The costs of rows in order.
pub open spec fn row_costs(rows: Seq<MergedRow<Cost>>) -> Seq<Cost> {
    rows.map_values(|row: MergedRow<Cost>| row.cost)
}

/// The sums of all columns, and all tokens together, fit machine integers.
pub open spec fn report_fits<C>(rows: Seq<MergedRow<C>>) -> bool {
    rows_total(rows).fit() && rows_total(rows).sum() <= u64::MAX
}

proof fn lemma_rows_total_prefix(rows: Seq<MergedRow<Cost>>, n: int)
    requires
        0 <= n <= rows.len(),
        rows_total(rows).fit(),
    ensures
        rows_total(rows.take(n)).fit(),
    decreases rows.len() - n,
{
    if n < rows.len() {
        lemma_rows_total_prefix(rows, n + 1);
        assert(rows.take(n + 1).drop_last() =~= rows.take(n));
    } else {
        assert(rows.take(n) =~= rows);
    }
}

fn cell_of(row: &MergedRow<Cost>) -> (cell: CellTotals<Cost>)
    ensures
        cell.counts() == row.counts(),
        cell.input_tokens == row.input_tokens,
        cell.output_tokens == row.output_tokens,
        cell.cache_creation_tokens == row.cache_creation_tokens,
        cell.cache_read_tokens == row.cache_read_tokens,
        cell.cost == row.cost,
{
    CellTotals {
        input_tokens: row.input_tokens,
        output_tokens: row.output_tokens,
        cache_creation_tokens: row.cache_creation_tokens,
        cache_read_tokens: row.cache_read_tokens,
        cost: row.cost,
    }
}

/// The sums of the columns; `None` where one of them does not fit.
pub fn add_rows(rows: &Vec<MergedRow<Cost>>) -> (out: Option<CellTotals<Vec<Cost>>>)
    ensures
        match out {
            Some(totals) => totals.counts() == rows_total(rows@) && totals.cost@ == row_costs(
                rows@,
            ),
            None => !rows_total(rows@).fit(),
        },
{
    let mut totals = CellTotals::nothing();
    let mut i: usize = 0;
    assert(rows@.take(0) =~= Seq::empty());
    assert(totals.cost@ =~= row_costs(rows@.take(0)));
    while i < rows.len()
        invariant
            i <= rows@.len(),
            totals.counts() == rows_total(rows@.take(i as int)),
            totals.cost@ == row_costs(rows@.take(i as int)),
        decreases rows@.len() - i,
    {
        let cell = cell_of(&rows[i]);
        proof {
            assert(rows@.take(i + 1).drop_last() =~= rows@.take(i as int));
            assert(row_costs(rows@.take(i + 1)) =~= row_costs(rows@.take(i as int)).push(
                rows@[i as int].cost,
            ));
        }
        if !totals.has_room_for(&cell) {
            proof {
                if rows_total(rows@).fit() {
                    lemma_rows_total_prefix(rows@, i + 1);
                }
            }
            return None;
        }
        totals.add_cell(&cell);
        i = i + 1;
    }
    assert(rows@.take(rows@.len() as int) =~= rows@);
    Some(totals)
}

/// Whether the sums of all columns, and all tokens together, fit.
pub fn sums_of_report_fit(rows: &Vec<MergedRow<Cost>>) -> (r: bool)
    ensures
        r == report_fits(rows@),
{
    match add_rows(rows) {
        Some(totals) => {
            let sum: u128 = totals.input_tokens as u128 + totals.output_tokens as u128
                + totals.cache_creation_tokens as u128 + totals.cache_read_tokens as u128;
            sum <= u64::MAX as u128
        },
        None => false,
    }
}

/// The totals of a sync report as a document.
pub open spec fn totals_fields(rows: Seq<MergedRow<Cost>>) -> Seq<(Seq<char>, JsonModel)> {
    let counts = rows_total(rows);
    seq![
        ("inputTokens"@, JsonModel::Number(counts.input)),
        ("outputTokens"@, JsonModel::Number(counts.output)),
        ("cacheCreationTokens"@, JsonModel::Number(counts.cache_creation)),
        ("cacheReadTokens"@, JsonModel::Number(counts.cache_read)),
        ("totalTokens"@, JsonModel::Number(counts.sum())),
        ("totalCost"@, JsonModel::MoneySum(row_costs(rows))),
    ]
}

/// The totals of a sync report as a document.
pub fn totals_value(rows: &Vec<MergedRow<Cost>>) -> (out: Json)
    requires
        report_fits(rows@),
    ensures
        out.model() == JsonModel::Object(totals_fields(rows@)),
{
    let mut fields: Vec<(String, Json)> = Vec::new();
    if let Some(totals) = add_rows(rows) {
        let sum: u64 = totals.input_tokens + totals.output_tokens + totals.cache_creation_tokens
            + totals.cache_read_tokens;
        put(&mut fields, "inputTokens", Json::Number(totals.input_tokens));
        put(&mut fields, "outputTokens", Json::Number(totals.output_tokens));
        put(&mut fields, "cacheCreationTokens", Json::Number(totals.cache_creation_tokens));
        put(&mut fields, "cacheReadTokens", Json::Number(totals.cache_read_tokens));
        put(&mut fields, "totalTokens", Json::Number(sum));
        put(&mut fields, "totalCost", Json::MoneySum(totals.cost));
    }
    assert(fields_model(fields@) =~= totals_fields(rows@));
    object(fields)
}

/// A row has neither tokens nor a cost.
pub open spec fn is_empty_row(row: MergedRow<Cost>) -> bool {
    row.counts().sum() == 0 && row.cost.zero()
}

/// A row of the report as a document.
pub open spec fn merged_row_fields(row: MergedRow<Cost>) -> Seq<(Seq<char>, JsonModel)> {
    seq![
        ("agent"@, JsonModel::Text(row.agent@)),
        ("machine"@, JsonModel::Text(row.machine@)),
        ("inputTokens"@, JsonModel::Number(row.input_tokens as nat)),
        ("outputTokens"@, JsonModel::Number(row.output_tokens as nat)),
        ("cacheCreationTokens"@, JsonModel::Number(row.cache_creation_tokens as nat)),
        ("cacheReadTokens"@, JsonModel::Number(row.cache_read_tokens as nat)),
        ("cost"@, JsonModel::Money(row.cost)),
    ]
}

/// The dates of the rows that are not empty.
pub open spec fn dates_of(rows: Seq<MergedRow<Cost>>) -> Seq<Seq<char>>
    decreases rows.len(),
{
    if rows.len() == 0 {
        Seq::empty()
    } else if is_empty_row(rows.last()) {
        dates_of(rows.drop_last())
    } else {
        dates_of(rows.drop_last()).push(rows.last().date@)
    }
}

/// The rows of a date that are not empty, in order, as documents.
pub open spec fn rows_of_date(rows: Seq<MergedRow<Cost>>, date: Seq<char>) -> Seq<JsonModel>
    decreases rows.len(),
{
    if rows.len() == 0 {
        Seq::empty()
    } else {
        let earlier = rows_of_date(rows.drop_last(), date);
        if !is_empty_row(rows.last()) && rows.last().date@ == date {
            earlier.push(JsonModel::Object(merged_row_fields(rows.last())))
        } else {
            earlier
        }
    }
}

/// The rows of the report by date.
pub open spec fn days_fields(rows: Seq<MergedRow<Cost>>, dates: Seq<Seq<char>>) -> Seq<
    (Seq<char>, JsonModel),
> {
    dates.map_values(|date: Seq<char>| (date, JsonModel::Array(rows_of_date(rows, date))))
}

fn merged_row_json(row: &MergedRow<Cost>) -> (out: Json)
    ensures
        out.model() == JsonModel::Object(merged_row_fields(*row)),
{
    let mut fields: Vec<(String, Json)> = Vec::new();
    put(&mut fields, "agent", Json::Text(row.agent.clone()));
    put(&mut fields, "machine", Json::Text(row.machine.clone()));
    put(&mut fields, "inputTokens", Json::Number(row.input_tokens));
    put(&mut fields, "outputTokens", Json::Number(row.output_tokens));
    put(&mut fields, "cacheCreationTokens", Json::Number(row.cache_creation_tokens));
    put(&mut fields, "cacheReadTokens", Json::Number(row.cache_read_tokens));
    put(&mut fields, "cost", Json::Money(row.cost));
    assert(fields_model(fields@) =~= merged_row_fields(*row));
    object(fields)
}

fn date_json(rows: &Vec<MergedRow<Cost>>, date: &String) -> (out: Json)
    ensures
        out.model() == JsonModel::Array(rows_of_date(rows@, date@)),
{
    let mut items: Vec<Json> = Vec::new();
    let mut i: usize = 0;
    assert(rows@.take(0) =~= Seq::empty());
    assert(items_model(items@) =~= rows_of_date(rows@.take(0), date@));
    while i < rows.len()
        invariant
            i <= rows@.len(),
            items_model(items@) == rows_of_date(rows@.take(i as int), date@),
        decreases rows@.len() - i,
    {
        let row = &rows[i];
        assert(rows@.take(i + 1).drop_last() =~= rows@.take(i as int));
        if !cell_of(row).is_empty() && same_text(row.date.as_str(), date.as_str()) {
            let ghost before = items_model(items@);
            let item = merged_row_json(row);
            items.push(item);
            assert(items_model(items@) =~= before.push(item.model()));
        }
        i = i + 1;
    }
    assert(rows@.take(rows@.len() as int) =~= rows@);
    array(items)
}

/// The report of a sync as a document: the machines, the rows of each date in ascending order
/// without empty rows, and the totals.
pub fn sync_json(rows: &Vec<MergedRow<Cost>>, machines: &Vec<String>) -> (out: Json)
    requires
        report_fits(rows@),
    ensures
        exists|dates: Seq<Seq<char>>| #[trigger]
            is_sorted_set(dates_of(rows@), dates) && out.model() == JsonModel::Object(
                seq![
                    ("machines"@, texts_model(machines@)),
                    ("days"@, JsonModel::Object(days_fields(rows@, dates))),
                    ("totals"@, JsonModel::Object(totals_fields(rows@))),
                ],
            ),
{
    let mut dates: Vec<String> = Vec::new();
    let mut i: usize = 0;
    assert(rows@.take(0) =~= Seq::empty());
    assert(texts(dates@) =~= Seq::<Seq<char>>::empty());
    while i < rows.len()
        invariant
            i <= rows@.len(),
            is_sorted_set(dates_of(rows@.take(i as int)), texts(dates@)),
        decreases rows@.len() - i,
    {
        assert(rows@.take(i + 1).drop_last() =~= rows@.take(i as int));
        if !cell_of(&rows[i]).is_empty() {
            add_name(&mut dates, &rows[i].date, Ghost(dates_of(rows@.take(i as int))));
        }
        i = i + 1;
    }
    assert(rows@.take(rows@.len() as int) =~= rows@);
    let ghost sorted = texts(dates@);
    let mut days: Vec<(String, Json)> = Vec::new();
    let mut d: usize = 0;
    while d < dates.len()
        invariant
            d <= dates@.len(),
            sorted == texts(dates@),
            fields_model(days@) =~= days_fields(rows@, sorted.take(d as int)),
        decreases dates@.len() - d,
    {
        put(&mut days, dates[d].as_str(), date_json(rows, &dates[d]));
        d = d + 1;
    }
    assert(sorted.take(dates@.len() as int) =~= sorted);
    let mut fields: Vec<(String, Json)> = Vec::new();
    put(&mut fields, "machines", text_array(machines));
    put(&mut fields, "days", object(days));
    put(&mut fields, "totals", totals_value(rows));
    assert(fields_model(fields@) =~= seq![
        ("machines"@, texts_model(machines@)),
        ("days"@, JsonModel::Object(days_fields(rows@, sorted))),
        ("totals"@, JsonModel::Object(totals_fields(rows@))),
    ]);
    assert(is_sorted_set(dates_of(rows@), sorted));
    object(fields)
}

/// The title of the table.
pub fn sync_title(machines: &Vec<String>) -> (out: String)
    ensures
        out@ == "GitHub Sync Report - "@ + machines_text(texts(machines@)) + " - "@ + decimal(
            machines@.len(),
        ) + " machine"@ + (if machines@.len() == 1 {
            ""@
        } else {
            "s"@
        }),
{
    let label = machine_label(machines);
    let mut out = concat3("GitHub Sync Report - ", label.as_str(), " - ");
    let count = number(machines.len() as u64);
    out.append(count.as_str());
    out.append(" machine");
    out.append(
        if machines.len() == 1 {
            ""
        } else {
            "s"
        },
    );
    out
}

/// The columns of the table.
pub open spec fn sync_columns(by_machine: bool) -> Seq<&'static str> {
    if by_machine {
        seq!["Date", "Machine", "Agent", "Input", "Output", "Cache Read", "Cost (USD)"]
    } else {
        seq!["Date", "Agent", "Input", "Output", "Cache Read", "Cost (USD)"]
    }
}

/// The alignment of the columns: names to the left, figures to the right.
pub open spec fn sync_aligns(by_machine: bool) -> Seq<Align> {
    Seq::new(
        sync_columns(by_machine).len(),
        |i: int|
            if i < sync_columns(by_machine).len() - 4 {
                Align::Left
            } else {
                Align::Right
            },
    )
}

/// The date cell of a row: blank where the row before it has the same date.
pub open spec fn date_cell(rows: Seq<MergedRow<Cost>>, i: int) -> Seq<char> {
    if i > 0 && rows[i - 1].date@ == rows[i].date@ {
        ""@
    } else {
        rows[i].date@
    }
}

/// The cells of a row.
pub open spec fn sync_cells(rows: Seq<MergedRow<Cost>>, i: int, by_machine: bool) -> Seq<
    ContentModel,
> {
    let row = rows[i];
    let date = ContentModel::Text(date_cell(rows, i));
    let rest = seq![
        ContentModel::Text(row.agent@),
        ContentModel::Number(row.input_tokens as nat),
        ContentModel::Number(row.output_tokens as nat),
        ContentModel::Number(row.cache_read_tokens as nat),
        ContentModel::Money(row.cost),
    ];
    if by_machine {
        seq![date, ContentModel::Text(row.machine@)] + rest
    } else {
        seq![date] + rest
    }
}

/// The lines of the rows.
pub open spec fn sync_body(rows: Seq<MergedRow<Cost>>, by_machine: bool) -> Seq<LineModel> {
    Seq::new(
        rows.len(),
        |i: int| LineModel::Cells(painted(sync_cells(rows, i, by_machine), Paint::Plain)),
    )
}

/// The cells of the last line, with the sums of the columns.
pub open spec fn sync_total_cells(rows: Seq<MergedRow<Cost>>, by_machine: bool) -> Seq<CellModel> {
    let counts = rows_total(rows);
    let yellow = |content: ContentModel| CellModel { content, paint: Paint::Yellow };
    let blank = CellModel { content: ContentModel::Text(""@), paint: Paint::Plain };
    let rest = seq![
        blank,
        yellow(ContentModel::Number(counts.input)),
        yellow(ContentModel::Number(counts.output)),
        yellow(ContentModel::Number(counts.cache_read)),
        yellow(ContentModel::MoneySum(row_costs(rows))),
    ];
    if by_machine {
        seq![yellow(ContentModel::Text("Total"@)), blank] + rest
    } else {
        seq![yellow(ContentModel::Text("Total"@))] + rest
    }
}

/// The lines of the table: those of the rows, a separator and the totals.
pub open spec fn sync_lines(rows: Seq<MergedRow<Cost>>, by_machine: bool) -> Seq<LineModel> {
    sync_body(rows, by_machine) + seq![
        LineModel::Separator,
        LineModel::Cells(sync_total_cells(rows, by_machine)),
    ]
}

fn yellow(content: Content) -> (out: Cell)
    ensures
        out@ == (CellModel { content: content@, paint: Paint::Yellow }),
{
    Cell { content, paint: Paint::Yellow }
}

fn blank() -> (out: Cell)
    ensures
        out@ == (CellModel { content: ContentModel::Text(""@), paint: Paint::Plain }),
{
    Cell { content: text(""), paint: Paint::Plain }
}

/// The table of a sync report, grouped by date; `by_machine` adds a column with the machine.
pub fn sync_table(rows: &Vec<MergedRow<Cost>>, by_machine: bool) -> (out: Table)
    requires
        report_fits(rows@),
    ensures
        out.headers@ == sync_columns(by_machine),
        out.aligns@ == sync_aligns(by_machine),
        lines_view(out.lines@) == sync_lines(rows@, by_machine),
{
    let mut headers: Vec<&'static str> = vec!["Date"];
    let mut aligns: Vec<Align> = vec![Align::Left];
    if by_machine {
        headers.push("Machine");
        aligns.push(Align::Left);
    }
    headers.push("Agent");
    headers.push("Input");
    headers.push("Output");
    headers.push("Cache Read");
    headers.push("Cost (USD)");
    aligns.push(Align::Left);
    aligns.push(Align::Right);
    aligns.push(Align::Right);
    aligns.push(Align::Right);
    aligns.push(Align::Right);
    assert(headers@ =~= sync_columns(by_machine));
    assert(aligns@ =~= sync_aligns(by_machine));
    let mut lines: Vec<Line> = Vec::new();
    let mut i: usize = 0;
    while i < rows.len()
        invariant
            i <= rows@.len(),
            lines_view(lines@) =~= sync_body(rows@, by_machine).take(i as int),
        decreases rows@.len() - i,
    {
        let row = &rows[i];
        let mut values: Vec<Content> = Vec::new();
        if i > 0 && same_text(rows[i - 1].date.as_str(), row.date.as_str()) {
            values.push(text(""));
        } else {
            values.push(Content::Text(row.date.clone()));
        }
        if by_machine {
            values.push(Content::Text(row.machine.clone()));
        }
        values.push(Content::Text(row.agent.clone()));
        values.push(Content::Number(row.input_tokens));
        values.push(Content::Number(row.output_tokens));
        values.push(Content::Number(row.cache_read_tokens));
        values.push(Content::Money(row.cost));
        assert(contents_view(values@) =~= sync_cells(rows@, i as int, by_machine));
        push_cells(&mut lines, paint_all(values, Paint::Plain));
        i = i + 1;
    }
    push_separator(&mut lines);
    if let Some(totals) = add_rows(rows) {
        let mut cells: Vec<Cell> = Vec::new();
        cells.push(yellow(text("Total")));
        if by_machine {
            cells.push(blank());
        }
        cells.push(blank());
        cells.push(yellow(Content::Number(totals.input_tokens)));
        cells.push(yellow(Content::Number(totals.output_tokens)));
        cells.push(yellow(Content::Number(totals.cache_read_tokens)));
        cells.push(yellow(Content::MoneySum(totals.cost)));
        assert(cells_view(cells@) =~= sync_total_cells(rows@, by_machine));
        push_cells(&mut lines, cells);
    }
    assert(lines_view(lines@) =~= sync_lines(rows@, by_machine));
    Table { headers, aligns, lines }
}

/// Every line of the table has a cell for every column, and every column has an alignment.
pub proof fn every_sync_line_fills_the_columns(rows: Seq<MergedRow<Cost>>, by_machine: bool)
    ensures
        forall|i: int|
            0 <= i < sync_lines(rows, by_machine).len() ==> (#[trigger] sync_lines(
                rows,
                by_machine,
            )[i] matches LineModel::Cells(cells) ==> cells.len() == sync_columns(by_machine).len()),
        sync_aligns(by_machine).len() == sync_columns(by_machine).len(),
{
}

} // verus!
