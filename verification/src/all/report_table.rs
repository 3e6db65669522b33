//! Unified reports as tables.

use vstd::prelude::*;
use vstd::string::*;
use crate::all::document::{add_up, copy_breakdowns, rows_costs, rows_counts, sums_fit};
use crate::all::labels::{
    agent_label, agent_label_text, all_table_columns, column_aligns, columns, strip_store_prefix,
    without_store,
};
use crate::all::rows::{AgentReportKind, AllRow, ModelBreakdown};
use crate::cost::Cost;
use crate::order::same_text;
use crate::table::{
    cells_view, contents_view, lines_view, paint_all, painted, push_cells, push_separator, text,
    Cell, CellModel, Content, ContentModel, Line, LineModel, Paint, Table,
};
use crate::tally::clone_key;
use crate::text::{concat2, texts};

verus! {

/// What a table shows.
#[derive(Debug, Clone, Copy)]
pub struct TableStyle {
    /// Few columns, for narrow terminals.
    pub compact: bool,
    /// Without costs.
    pub no_cost: bool,
    /// With a line per model.
    pub breakdown: bool,
}

/// The number itself, or the greatest machine integer where it does not fit one.
pub open spec fn capped(n: nat) -> nat {
    if n <= u64::MAX {
        n
    } else {
        u64::MAX as nat
    }
}

/// All tokens of a row together; the greatest machine integer where the sum does not fit.
pub fn table_total_tokens(row: &AllRow) -> (out: u64)
    ensures
        out == capped(row.counts().sum()),
{
    row.input_tokens.saturating_add(row.output_tokens).saturating_add(
        row.cache_creation_tokens,
    ).saturating_add(row.cache_read_tokens)
}

/// The token totals of all rows together.
pub open spec fn table_totals(rows: Seq<AllRow>) -> nat
    decreases rows.len(),
{
    if rows.len() == 0 {
        0
    } else {
        table_totals(rows.drop_last()) + capped(rows.last().counts().sum())
    }
}

/// The names of models without their stores, which a cell shows one per line.
pub fn unified_models_multiline(models: &Vec<String>) -> (out: Content)
    ensures
        out@ == ContentModel::Models(models_shown(models@)),
{
    let mut names: Vec<String> = Vec::new();
    let mut i: usize = 0;
    while i < models.len()
        invariant
            i <= models@.len(),
            texts(names@) =~= models_shown(models@.take(i as int)),
        decreases models@.len() - i,
    {
        let ghost before = texts(names@);
        let name = strip_store_prefix(models[i].as_str());
        names.push(name);
        assert(texts(names@) =~= before.push(name@));
        i = i + 1;
    }
    assert(models@.take(models@.len() as int) =~= models@);
    Content::Models(names)
}

/// The names of models without their stores.
pub open spec fn models_shown(models: Seq<String>) -> Seq<Seq<char>> {
    models.map_values(|model: String| without_store(model@))
}

/// What the agent cell of a row shows: a breakdown row has a dash before the agent, and a row
/// with breakdowns stands for all agents.
pub open spec fn agent_cell(row: AllRow, breakdown: bool) -> Seq<char> {
    if breakdown {
        "- "@ + agent_label_text(row.agent@)
    } else if row.agent_breakdowns is Some {
        "All"@
    } else {
        agent_label_text(row.agent@)
    }
}

/// The cells of a row. A breakdown row does not repeat the period, and a row with breakdowns
/// leaves the models to them.
pub open spec fn row_cells(row: AllRow, compact: bool, breakdown: bool, no_cost: bool) -> Seq<
    ContentModel,
> {
    let period = ContentModel::Text(
        if breakdown {
            ""@
        } else {
            row.period@
        },
    );
    let agent = ContentModel::Text(agent_cell(row, breakdown));
    let models = if row.agent_breakdowns is Some {
        ContentModel::Text(""@)
    } else {
        ContentModel::Models(models_shown(row.models_used@))
    };
    let all = if compact {
        seq![
            period,
            agent,
            models,
            ContentModel::Number(row.input_tokens as nat),
            ContentModel::Number(row.output_tokens as nat),
            ContentModel::Money(row.total_cost),
        ]
    } else {
        seq![
            period,
            agent,
            models,
            ContentModel::Number(row.input_tokens as nat),
            ContentModel::Number(row.output_tokens as nat),
            ContentModel::Number(row.cache_creation_tokens as nat),
            ContentModel::Number(row.cache_read_tokens as nat),
            ContentModel::Number(capped(row.counts().sum())),
            ContentModel::Money(row.total_cost),
        ]
    };
    if no_cost {
        all.drop_last()
    } else {
        all
    }
}

/// The cells of a row.
pub fn all_table_row(row: &AllRow, compact: bool, breakdown: bool, no_cost: bool) -> (out: Vec<
    Content,
>)
    ensures
        contents_view(out@) == row_cells(*row, compact, breakdown, no_cost),
{
    let period = if breakdown {
        text("")
    } else {
        Content::Text(row.period.clone())
    };
    let agent = if breakdown {
        Content::Text(concat2("- ", agent_label(row.agent.as_str())))
    } else if row.agent_breakdowns.is_some() {
        text("All")
    } else {
        text(agent_label(row.agent.as_str()))
    };
    let models = if row.agent_breakdowns.is_some() {
        text("")
    } else {
        unified_models_multiline(&row.models_used)
    };
    let mut values: Vec<Content> = Vec::new();
    values.push(period);
    values.push(agent);
    values.push(models);
    values.push(Content::Number(row.input_tokens));
    values.push(Content::Number(row.output_tokens));
    if !compact {
        values.push(Content::Number(row.cache_creation_tokens));
        values.push(Content::Number(row.cache_read_tokens));
        values.push(Content::Number(table_total_tokens(row)));
    }
    if !no_cost {
        values.push(Content::Money(row.total_cost));
    }
    assert(contents_view(values@) =~= row_cells(*row, compact, breakdown, no_cost));
    values
}

/// The cells of one model of a row.
pub open spec fn model_cells(model: ModelBreakdown, compact: bool, no_cost: bool) -> Seq<
    ContentModel,
> {
    let name = ContentModel::ModelItem(without_store(model.model_name@));
    let blank = ContentModel::Text(""@);
    let all = if compact {
        seq![
            blank,
            blank,
            name,
            ContentModel::Number(model.input_tokens as nat),
            ContentModel::Number(model.output_tokens as nat),
            ContentModel::Money(model.cost),
        ]
    } else {
        seq![
            blank,
            blank,
            name,
            ContentModel::Number(model.input_tokens as nat),
            ContentModel::Number(model.output_tokens as nat),
            ContentModel::Number(model.cache_creation_tokens as nat),
            ContentModel::Number(model.cache_read_tokens as nat),
            ContentModel::Number(model.counts().sum()),
            ContentModel::Money(model.cost),
        ]
    };
    if no_cost {
        all.drop_last()
    } else {
        all
    }
}

/// The line of one model: its cells in grey, after two blank ones.
pub open spec fn model_line(model: ModelBreakdown, compact: bool, no_cost: bool) -> LineModel {
    LineModel::Cells(
        model_cells(model, compact, no_cost).map(
            |i: int, content: ContentModel|
                CellModel {
                    content,
                    paint: if i < 2 {
                        Paint::Plain
                    } else {
                        Paint::Grey
                    },
                },
        ),
    )
}

/// The lines of the models of a row.
pub open spec fn model_lines(models: Seq<ModelBreakdown>, compact: bool, no_cost: bool) -> Seq<
    LineModel,
> {
    models.map_values(|model: ModelBreakdown| model_line(model, compact, no_cost))
}

/// The tokens of every model together fit a machine integer.
pub open spec fn models_fit(models: Seq<ModelBreakdown>) -> bool {
    forall|i: int| 0 <= i < models.len() ==> (#[trigger] models[i]).counts().sum() <= u64::MAX
}

/// Adds the lines of the models of a row.
pub fn push_model_breakdown_rows(
    lines: &mut Vec<Line>,
    breakdowns: &Vec<ModelBreakdown>,
    compact: bool,
    no_cost: bool,
)
    requires
        models_fit(breakdowns@),
    ensures
        lines_view(final(lines)@) == lines_view(old(lines)@) + model_lines(
            breakdowns@,
            compact,
            no_cost,
        ),
{
    let ghost start = lines_view(lines@);
    let mut i: usize = 0;
    assert(start + model_lines(breakdowns@.take(0), compact, no_cost) =~= start);
    while i < breakdowns.len()
        invariant
            i <= breakdowns@.len(),
            models_fit(breakdowns@),
            lines_view(lines@) == start + model_lines(
                breakdowns@.take(i as int),
                compact,
                no_cost,
            ),
        decreases breakdowns@.len() - i,
    {
        let model = &breakdowns[i];
        assert(breakdowns@[i as int].counts().sum() <= u64::MAX);
        let total: u64 = model.input_tokens + model.output_tokens + model.cache_creation_tokens
            + model.cache_read_tokens;
        let mut grey: Vec<Content> = Vec::new();
        grey.push(Content::ModelItem(strip_store_prefix(model.model_name.as_str())));
        grey.push(Content::Number(model.input_tokens));
        grey.push(Content::Number(model.output_tokens));
        if !compact {
            grey.push(Content::Number(model.cache_creation_tokens));
            grey.push(Content::Number(model.cache_read_tokens));
            grey.push(Content::Number(total));
        }
        if !no_cost {
            grey.push(Content::Money(model.cost));
        }
        let ghost shown = contents_view(grey@);
        let mut row: Vec<Cell> = Vec::new();
        row.push(Cell { content: text(""), paint: Paint::Plain });
        row.push(Cell { content: text(""), paint: Paint::Plain });
        let ghost blanks = cells_view(row@);
        let mut cells = paint_all(grey, Paint::Grey);
        row.append(&mut cells);
        proof {
            assert(cells_view(row@) =~= blanks + painted(shown, Paint::Grey));
            assert(cells_view(row@) =~= model_line(*model, compact, no_cost)->Cells_0);
            assert(model_lines(breakdowns@.take(i + 1), compact, no_cost) =~= model_lines(
                breakdowns@.take(i as int),
                compact,
                no_cost,
            ).push(model_line(*model, compact, no_cost)));
        }
        push_cells(lines, row);
        assert(lines_view(lines@) =~= start + model_lines(
            breakdowns@.take(i + 1),
            compact,
            no_cost,
        ));
        i = i + 1;
    }
    assert(breakdowns@.take(breakdowns@.len() as int) =~= breakdowns@);
}

/// How the cells of a row are painted: in wide tables the period and the agent of a row for all
/// agents are bold, and the last cell of a row without cost is grey.
pub open spec fn row_paint(row: AllRow, compact: bool, count: nat, i: int) -> Paint {
    if compact {
        Paint::Plain
    } else if i == 0 && row.period@.len() > 0 {
        Paint::Bold
    } else if i == 1 && agent_cell(row, false) == "All"@ {
        Paint::Bold
    } else if i == count - 1 && row.total_cost.zero() {
        Paint::Grey
    } else {
        Paint::Plain
    }
}

/// The line of a row.
pub open spec fn main_line(row: AllRow, style: TableStyle) -> LineModel {
    let cells = row_cells(row, style.compact, false, style.no_cost);
    LineModel::Cells(
        cells.map(
            |i: int, content: ContentModel|
                CellModel { content, paint: row_paint(row, style.compact, cells.len(), i) },
        ),
    )
}

/// The lines of the models of a row, where they are wanted.
pub open spec fn wanted_model_lines(row: AllRow, style: TableStyle) -> Seq<LineModel> {
    if style.breakdown {
        model_lines(row.model_breakdowns@, style.compact, style.no_cost)
    } else {
        Seq::empty()
    }
}

/// The lines of the agents of a row, with a separator before each agent but the first.
pub open spec fn agent_lines(agents: Seq<AllRow>, style: TableStyle) -> Seq<LineModel>
    decreases agents.len(),
{
    if agents.len() == 0 {
        Seq::empty()
    } else {
        let agent = agents.last();
        let own = seq![
            LineModel::Cells(
                painted(row_cells(agent, style.compact, true, style.no_cost), Paint::Plain),
            ),
        ] + wanted_model_lines(agent, style);
        if agents.len() == 1 {
            own
        } else {
            agent_lines(agents.drop_last(), style) + seq![LineModel::Separator] + own
        }
    }
}

/// The lines of a row: its own, then those of its agents, or of its models where it has no
/// agents.
pub open spec fn row_lines(row: AllRow, style: TableStyle) -> Seq<LineModel> {
    seq![main_line(row, style)] + match row.agent_breakdowns {
        Some(agents) => agent_lines(agents@, style),
        None => wanted_model_lines(row, style),
    }
}

/// The lines of rows, with a separator wherever the period changes.
pub open spec fn body_lines(rows: Seq<AllRow>, style: TableStyle) -> Seq<LineModel>
    decreases rows.len(),
{
    if rows.len() == 0 {
        Seq::empty()
    } else {
        let earlier = body_lines(rows.drop_last(), style);
        let gap = if rows.len() > 1 && rows[rows.len() - 2].period@ != rows.last().period@ {
            seq![LineModel::Separator]
        } else {
            Seq::empty()
        };
        earlier + gap + row_lines(rows.last(), style)
    }
}

/// The cells of the last line, with the sums of the columns.
pub open spec fn total_cells(rows: Seq<AllRow>, compact: bool, no_cost: bool) -> Seq<CellModel> {
    let counts = rows_counts(rows);
    let yellow = |content: ContentModel| CellModel { content, paint: Paint::Yellow };
    let blank = CellModel { content: ContentModel::Text(""@), paint: Paint::Plain };
    let all = if compact {
        seq![
            yellow(ContentModel::Text("Total"@)),
            blank,
            blank,
            yellow(ContentModel::Number(counts.input)),
            yellow(ContentModel::Number(counts.output)),
            yellow(ContentModel::MoneySum(rows_costs(rows))),
        ]
    } else {
        seq![
            yellow(ContentModel::Text("Total"@)),
            blank,
            blank,
            yellow(ContentModel::Number(counts.input)),
            yellow(ContentModel::Number(counts.output)),
            yellow(ContentModel::Number(counts.cache_creation)),
            yellow(ContentModel::Number(counts.cache_read)),
            yellow(ContentModel::Number(table_totals(rows))),
            yellow(ContentModel::MoneySum(rows_costs(rows))),
        ]
    };
    if no_cost {
        all.drop_last()
    } else {
        all
    }
}

/// The lines of a table: those of its rows, a separator and the totals.
pub open spec fn table_lines(rows: Seq<AllRow>, style: TableStyle) -> Seq<LineModel> {
    body_lines(rows, style) + seq![
        LineModel::Separator,
        LineModel::Cells(total_cells(rows, style.compact, style.no_cost)),
    ]
}

/// The models that a table shows of a row have totals that fit.
pub open spec fn row_models_fit(row: AllRow) -> bool {
    match row.agent_breakdowns {
        Some(agents) => forall|i: int|
            0 <= i < agents@.len() ==> models_fit((#[trigger] agents@[i]).model_breakdowns@),
        None => models_fit(row.model_breakdowns@),
    }
}

/// All sums that a table shows fit machine integers.
pub open spec fn table_fits(rows: Seq<AllRow>, style: TableStyle) -> bool {
    &&& sums_fit(rows)
    &&& table_totals(rows) <= u64::MAX
    &&& style.breakdown ==> forall|i: int|
        0 <= i < rows.len() ==> row_models_fit(#[trigger] rows[i])
}

fn all_models_fit(models: &Vec<ModelBreakdown>) -> (r: bool)
    ensures
        r == models_fit(models@),
{
    let mut i: usize = 0;
    while i < models.len()
        invariant
            i <= models@.len(),
            forall|j: int| 0 <= j < i ==> (#[trigger] models@[j]).counts().sum() <= u64::MAX,
        decreases models@.len() - i,
    {
        let model = &models[i];
        let sum: u128 = model.input_tokens as u128 + model.output_tokens as u128
            + model.cache_creation_tokens as u128 + model.cache_read_tokens as u128;
        if sum > u64::MAX as u128 {
            assert(models@[i as int].counts().sum() > u64::MAX);
            return false;
        }
        i = i + 1;
    }
    true
}

fn shown_models_fit(row: &AllRow) -> (r: bool)
    ensures
        r == row_models_fit(*row),
{
    match &row.agent_breakdowns {
        Some(agents) => {
            let mut i: usize = 0;
            while i < agents.len()
                invariant
                    i <= agents@.len(),
                    row.agent_breakdowns == Some(*agents),
                    forall|j: int|
                        0 <= j < i ==> models_fit((#[trigger] agents@[j]).model_breakdowns@),
                decreases agents@.len() - i,
            {
                if !all_models_fit(&agents[i].model_breakdowns) {
                    assert(!models_fit(agents@[i as int].model_breakdowns@));
                    return false;
                }
                i = i + 1;
            }
            true
        },
        None => all_models_fit(&row.model_breakdowns),
    }
}

proof fn lemma_table_totals_prefix(rows: Seq<AllRow>, n: int)
    requires
        0 <= n <= rows.len(),
    ensures
        table_totals(rows.take(n)) <= table_totals(rows),
    decreases rows.len() - n,
{
    if n < rows.len() {
        lemma_table_totals_prefix(rows, n + 1);
        assert(rows.take(n + 1).drop_last() =~= rows.take(n));
    } else {
        assert(rows.take(n) =~= rows);
    }
}

/// The sum of the token totals of rows, where it fits.
fn add_table_totals(rows: &Vec<AllRow>) -> (out: Option<u64>)
    ensures
        match out {
            Some(sum) => sum == table_totals(rows@),
            None => table_totals(rows@) > u64::MAX,
        },
{
    let mut sum: u64 = 0;
    let mut i: usize = 0;
    assert(rows@.take(0) =~= Seq::empty());
    while i < rows.len()
        invariant
            i <= rows@.len(),
            sum == table_totals(rows@.take(i as int)),
        decreases rows@.len() - i,
    {
        proof {
            assert(rows@.take(i + 1).drop_last() =~= rows@.take(i as int));
            lemma_table_totals_prefix(rows@, i + 1);
        }
        match sum.checked_add(table_total_tokens(&rows[i])) {
            Some(next) => {
                sum = next;
            },
            None => {
                return None;
            },
        }
        i = i + 1;
    }
    assert(rows@.take(rows@.len() as int) =~= rows@);
    Some(sum)
}

/// Whether all sums that a table shows fit.
pub fn sums_of_table_fit(rows: &Vec<AllRow>, style: TableStyle) -> (r: bool)
    ensures
        r == table_fits(rows@, style),
{
    if add_up(rows).is_none() || add_table_totals(rows).is_none() {
        return false;
    }
    if style.breakdown {
        let mut i: usize = 0;
        while i < rows.len()
            invariant
                i <= rows@.len(),
                style.breakdown,
                forall|j: int| 0 <= j < i ==> row_models_fit(#[trigger] rows@[j]),
            decreases rows@.len() - i,
        {
            if !shown_models_fit(&rows[i]) {
                assert(!row_models_fit(rows@[i as int]));
                return false;
            }
            i = i + 1;
        }
    }
    true
}

fn push_main_line(lines: &mut Vec<Line>, row: &AllRow, style: TableStyle)
    ensures
        lines_view(final(lines)@) == lines_view(old(lines)@).push(main_line(*row, style)),
{
    let contents = all_table_row(row, style.compact, false, style.no_cost);
    let ghost shown = contents_view(contents@);
    let count: usize = contents.len();
    let mut cells = paint_all(contents, Paint::Plain);
    let ghost plain = cells_view(cells@);
    assert(plain.len() == shown.len());
    if !style.compact {
        let all_agents: bool = row.agent_breakdowns.is_some() || same_text(
            agent_label(row.agent.as_str()),
            "All",
        );
        if !row.period.as_str().is_empty() {
            cells[0].paint = Paint::Bold;
        }
        if all_agents {
            cells[1].paint = Paint::Bold;
        }
        if row.total_cost.is_zero() {
            cells[count - 1].paint = Paint::Grey;
        }
    }
    proof {
        assert forall|i: int| 0 <= i < cells@.len() implies cells_view(cells@)[i] == (CellModel {
            content: shown[i],
            paint: row_paint(*row, style.compact, shown.len(), i),
        }) by {
            assert(plain[i].content == shown[i]);
            assert(cells@[i].content@ == shown[i]);
        }
        assert(cells_view(cells@) =~= main_line(*row, style)->Cells_0);
    }
    push_cells(lines, cells);
}

fn push_wanted_models(lines: &mut Vec<Line>, row: &AllRow, style: TableStyle)
    requires
        style.breakdown ==> models_fit(row.model_breakdowns@),
    ensures
        lines_view(final(lines)@) == lines_view(old(lines)@) + wanted_model_lines(*row, style),
{
    let ghost start = lines_view(lines@);
    if style.breakdown {
        push_model_breakdown_rows(lines, &row.model_breakdowns, style.compact, style.no_cost);
    } else {
        assert(start + wanted_model_lines(*row, style) =~= start);
    }
}

fn push_agent_lines(lines: &mut Vec<Line>, agents: &Vec<AllRow>, style: TableStyle)
    requires
        style.breakdown ==> forall|i: int|
            0 <= i < agents@.len() ==> models_fit((#[trigger] agents@[i]).model_breakdowns@),
    ensures
        lines_view(final(lines)@) == lines_view(old(lines)@) + agent_lines(agents@, style),
{
    let ghost start = lines_view(lines@);
    let mut i: usize = 0;
    assert(agents@.take(0) =~= Seq::empty());
    assert(start + agent_lines(agents@.take(0), style) =~= start);
    while i < agents.len()
        invariant
            i <= agents@.len(),
            style.breakdown ==> forall|j: int|
                0 <= j < agents@.len() ==> models_fit((#[trigger] agents@[j]).model_breakdowns@),
            lines_view(lines@) == start + agent_lines(agents@.take(i as int), style),
        decreases agents@.len() - i,
    {
        let agent = &agents[i];
        assert(style.breakdown ==> models_fit(agents@[i as int].model_breakdowns@));
        assert(agents@.take(i + 1).drop_last() =~= agents@.take(i as int));
        if i > 0 {
            push_separator(lines);
        }
        let contents = all_table_row(agent, style.compact, true, style.no_cost);
        push_cells(lines, paint_all(contents, Paint::Plain));
        push_wanted_models(lines, agent, style);
        assert(lines_view(lines@) =~= start + agent_lines(agents@.take(i + 1), style));
        i = i + 1;
    }
    assert(agents@.take(agents@.len() as int) =~= agents@);
}

fn push_row_lines(lines: &mut Vec<Line>, row: &AllRow, style: TableStyle)
    requires
        style.breakdown ==> row_models_fit(*row),
    ensures
        lines_view(final(lines)@) == lines_view(old(lines)@) + row_lines(*row, style),
{
    let ghost start = lines_view(lines@);
    push_main_line(lines, row, style);
    match &row.agent_breakdowns {
        Some(agents) => {
            push_agent_lines(lines, agents, style);
        },
        None => {
            push_wanted_models(lines, row, style);
        },
    }
    assert(lines_view(lines@) =~= start + row_lines(*row, style));
}

fn yellow(content: Content) -> (out: Cell)
    ensures
        out@ == (CellModel { content: content@, paint: Paint::Yellow }),
{
    Cell { content, paint: Paint::Yellow }
}

fn blank() -> (out: Cell)
    ensures
        out@ == (CellModel { content: ContentModel::Text(""@), paint: Paint::Plain }),
{
    Cell { content: text(""), paint: Paint::Plain }
}

/// The table of a unified report: the rows, with a separator wherever the period changes, and
/// the totals.
pub fn report_table(rows: &Vec<AllRow>, kind: AgentReportKind, style: TableStyle) -> (out: Table)
    requires
        table_fits(rows@, style),
    ensures
        out.headers@ == columns(kind, style.compact, style.no_cost),
        out.aligns@ == column_aligns(columns(kind, style.compact, style.no_cost).len()),
        lines_view(out.lines@) == table_lines(rows@, style),
{
    let (headers, aligns) = all_table_columns(kind, style.compact, style.no_cost);
    let mut lines: Vec<Line> = Vec::new();
    let mut i: usize = 0;
    assert(rows@.take(0) =~= Seq::empty());
    assert(lines_view(lines@) =~= body_lines(rows@.take(0), style));
    while i < rows.len()
        invariant
            i <= rows@.len(),
            table_fits(rows@, style),
            lines_view(lines@) == body_lines(rows@.take(i as int), style),
        decreases rows@.len() - i,
    {
        let row = &rows[i];
        proof {
            assert(style.breakdown ==> row_models_fit(rows@[i as int]));
            assert(rows@.take(i + 1).drop_last() =~= rows@.take(i as int));
        }
        if i > 0 && !same_text(rows[i - 1].period.as_str(), row.period.as_str()) {
            push_separator(&mut lines);
        }
        push_row_lines(&mut lines, row, style);
        assert(lines_view(lines@) =~= body_lines(rows@.take(i + 1), style));
        i = i + 1;
    }
    assert(rows@.take(rows@.len() as int) =~= rows@);
    push_separator(&mut lines);
    if let (Some(totals), Some(table_total)) = (add_up(rows), add_table_totals(rows)) {
        let mut cells: Vec<Cell> = Vec::new();
        cells.push(yellow(text("Total")));
        cells.push(blank());
        cells.push(blank());
        cells.push(yellow(Content::Number(totals.input_tokens)));
        cells.push(yellow(Content::Number(totals.output_tokens)));
        if !style.compact {
            cells.push(yellow(Content::Number(totals.cache_creation_tokens)));
            cells.push(yellow(Content::Number(totals.cache_read_tokens)));
            cells.push(yellow(Content::Number(table_total)));
        }
        if !style.no_cost {
            cells.push(yellow(Content::MoneySum(totals.costs)));
        }
        assert(cells_view(cells@) =~= total_cells(rows@, style.compact, style.no_cost));
        push_cells(&mut lines, cells);
    }
    assert(lines_view(lines@) =~= table_lines(rows@, style));
    Table { headers, aligns, lines }
}

/// The table to show; a report without rows shows none, only a message.
pub fn table_to_show(rows: &Vec<AllRow>, kind: AgentReportKind, style: TableStyle) -> (out: Option<
    Table,
>)
    requires
        table_fits(rows@, style),
    ensures
        match out {
            Some(table) => {
                &&& rows@.len() > 0
                &&& table.headers@ == columns(kind, style.compact, style.no_cost)
                &&& table.aligns@ == column_aligns(
                    columns(kind, style.compact, style.no_cost).len(),
                )
                &&& lines_view(table.lines@) == table_lines(rows@, style)
            },
            None => rows@.len() == 0,
        },
{
    if rows.len() == 0 {
        None
    } else {
        Some(report_table(rows, kind, style))
    }
}

/// A line has as many cells as there are columns.
pub open spec fn fills_columns(line: LineModel, count: nat) -> bool {
    line matches LineModel::Cells(cells) ==> cells.len() == count
}

/// Every line has as many cells as there are columns.
pub open spec fn all_fill_columns(lines: Seq<LineModel>, count: nat) -> bool {
    forall|i: int| 0 <= i < lines.len() ==> fills_columns(#[trigger] lines[i], count)
}

proof fn lemma_agent_lines_fill(agents: Seq<AllRow>, style: TableStyle, count: nat)
    requires
        count == columns(AgentReportKind::Daily, style.compact, style.no_cost).len(),
    ensures
        all_fill_columns(agent_lines(agents, style), count),
    decreases agents.len(),
{
    if agents.len() > 0 {
        lemma_agent_lines_fill(agents.drop_last(), style, count);
    }
}

proof fn lemma_body_lines_fill(rows: Seq<AllRow>, style: TableStyle, count: nat)
    requires
        count == columns(AgentReportKind::Daily, style.compact, style.no_cost).len(),
    ensures
        all_fill_columns(body_lines(rows, style), count),
    decreases rows.len(),
{
    if rows.len() > 0 {
        lemma_body_lines_fill(rows.drop_last(), style, count);
        let row = rows.last();
        if let Some(agents) = row.agent_breakdowns {
            lemma_agent_lines_fill(agents@, style, count);
        }
        assert(all_fill_columns(row_lines(row, style), count));
    }
}

/// Every line of a table has a cell for every column, whatever the style, and every column has
/// an alignment.
pub proof fn every_line_fills_the_columns(
    rows: Seq<AllRow>,
    kind: AgentReportKind,
    style: TableStyle,
)
    ensures
        all_fill_columns(
            table_lines(rows, style),
            columns(kind, style.compact, style.no_cost).len(),
        ),
        column_aligns(columns(kind, style.compact, style.no_cost).len()).len() == columns(
            kind,
            style.compact,
            style.no_cost,
        ).len(),
{
    let count = columns(kind, style.compact, style.no_cost).len();
    lemma_body_lines_fill(rows, style, count);
}

/// Usage of a row for the check of missing prices.
#[derive(Debug)]
pub struct UsageSummary {
    pub date: Option<String>,
    pub month: Option<String>,
    pub week: Option<String>,
    pub session_id: Option<String>,
    pub project_path: Option<String>,
    pub last_activity: Option<String>,
    pub first_activity: Option<String>,
    pub input_tokens: u64,
    pub output_tokens: u64,
    pub cache_creation_tokens: u64,
    pub cache_read_tokens: u64,
    pub extra_total_tokens: u64,
    pub total_cost: Cost,
    pub credits: Option<Cost>,
    pub message_count: Option<u64>,
    pub models_used: Vec<String>,
    pub model_breakdowns: Vec<ModelBreakdown>,
    pub project: Option<String>,
    pub versions: Option<Vec<String>>,
}

/// `summary` is the usage of a row: its counts, cost and models, and as extra tokens those that
/// its total has beyond the four counts. Nothing else is known of it.
pub open spec fn is_summary(row: AllRow, summary: UsageSummary) -> bool {
    &&& summary.input_tokens == row.input_tokens
    &&& summary.output_tokens == row.output_tokens
    &&& summary.cache_creation_tokens == row.cache_creation_tokens
    &&& summary.cache_read_tokens == row.cache_read_tokens
    &&& summary.extra_total_tokens == (if row.total_tokens >= row.counts().sum() {
        row.total_tokens - row.counts().sum()
    } else {
        0
    })
    &&& summary.total_cost == row.total_cost
    &&& summary.models_used@ == row.models_used@
    &&& summary.model_breakdowns@ == row.model_breakdowns@
    &&& summary.date is None
    &&& summary.month is None
    &&& summary.week is None
    &&& summary.session_id is None
    &&& summary.project_path is None
    &&& summary.last_activity is None
    &&& summary.first_activity is None
    &&& summary.credits is None
    &&& summary.message_count is None
    &&& summary.project is None
    &&& summary.versions is None
}

/// The usage of rows for the check of missing prices.
pub fn all_rows_as_usage_summaries(rows: &Vec<AllRow>) -> (out: Vec<UsageSummary>)
    ensures
        out@.len() == rows@.len(),
        forall|i: int| 0 <= i < rows@.len() ==> is_summary(rows@[i], #[trigger] out@[i]),
{
    let mut out: Vec<UsageSummary> = Vec::new();
    let mut i: usize = 0;
    while i < rows.len()
        invariant
            i <= rows@.len(),
            out@.len() == i,
            forall|j: int| 0 <= j < i ==> is_summary(rows@[j], #[trigger] out@[j]),
        decreases rows@.len() - i,
    {
        let row = &rows[i];
        out.push(
            UsageSummary {
                date: None,
                month: None,
                week: None,
                session_id: None,
                project_path: None,
                last_activity: None,
                first_activity: None,
                input_tokens: row.input_tokens,
                output_tokens: row.output_tokens,
                cache_creation_tokens: row.cache_creation_tokens,
                cache_read_tokens: row.cache_read_tokens,
                extra_total_tokens: row.total_tokens.saturating_sub(table_total_tokens(row)),
                total_cost: row.total_cost,
                credits: None,
                message_count: None,
                models_used: clone_key(&row.models_used),
                model_breakdowns: copy_breakdowns(&row.model_breakdowns),
                project: None,
                versions: None,
            },
        );
        i = i + 1;
    }
    out
}

} // verus!
