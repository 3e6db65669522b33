//! What the columns of a unified table show, read off their headers.

use vstd::prelude::*;
use vstd::string::*;
use crate::all::document::{rows_costs, rows_counts, sums_fit};
use crate::all::labels::{agent_label_text, column_aligns, columns, first_column_text, without_store};
use crate::all::report_table::{
    agent_lines, body_lines, is_summary, main_line, model_line, models_fit, row_cells, row_lines,
    row_models_fit, table_fits, table_lines, table_totals, total_cells, wanted_model_lines, TableStyle, UsageSummary,
};
use crate::all::rows::{AgentReportKind, AllRow, ModelBreakdown};
use crate::cost::{Cost, NEGATIVE_ZERO_BITS};
use crate::sums::{lemma_sum_same, sum_by};
use crate::table::{painted, Align, CellModel, ContentModel, LineModel, Paint};

verus! {

/// What a line of cells stands for: a row, an agent of a row, or a model.
pub enum Shown {
    Row(AllRow),
    Agent(AllRow),
    Model(ModelBreakdown),
}

/// Models, where they are wanted.
pub open spec fn model_items(models: Seq<ModelBreakdown>, wanted: bool) -> Seq<Shown> {
    if wanted {
        models.map_values(|model: ModelBreakdown| Shown::Model(model))
    } else {
        Seq::empty()
    }
}

/// Agents, each followed by its models where they are wanted.
pub open spec fn agent_items(agents: Seq<AllRow>, wanted: bool) -> Seq<Shown>
    decreases agents.len(),
{
    if agents.len() == 0 {
        Seq::empty()
    } else {
        agent_items(agents.drop_last(), wanted).push(Shown::Agent(agents.last())) + model_items(
            agents.last().model_breakdowns@,
            wanted,
        )
    }
}

/// A row, followed by its agents, or by its models where it has none and they are wanted.
pub open spec fn row_items(row: AllRow, wanted: bool) -> Seq<Shown> {
    seq![Shown::Row(row)] + match row.agent_breakdowns {
        Some(agents) => agent_items(agents@, wanted),
        None => model_items(row.model_breakdowns@, wanted),
    }
}

/// All that a table has a line for, in order.
pub open spec fn items(rows: Seq<AllRow>, wanted: bool) -> Seq<Shown>
    decreases rows.len(),
{
    if rows.len() == 0 {
        Seq::empty()
    } else {
        items(rows.drop_last(), wanted) + row_items(rows.last(), wanted)
    }
}

/// The separators of rows: one between two agents of a row, and one wherever the period changes.
pub open spec fn gaps(rows: Seq<AllRow>) -> nat
    decreases rows.len(),
{
    if rows.len() == 0 {
        0
    } else {
        let between = match rows.last().agent_breakdowns {
            Some(agents) if agents@.len() > 0 => (agents@.len() - 1) as nat,
            _ => 0,
        };
        let change: nat = if rows.len() > 1 && rows[rows.len() - 2].period@ != rows.last().period@ {
            1
        } else {
            0
        };
        gaps(rows.drop_last()) + between + change
    }
}

/// The lines that are no separators.
pub open spec fn cell_lines(lines: Seq<LineModel>) -> Seq<LineModel> {
    lines.filter(|line: LineModel| line is Cells)
}

/// The sum of four counts; the greatest machine integer where it does not fit one.
pub open spec fn together(a: u64, b: u64, c: u64, d: u64) -> nat {
    if a + b + c + d <= u64::MAX {
        (a + b + c + d) as nat
    } else {
        u64::MAX as nat
    }
}

/// A cell of a row, or of an agent of a row, shows what its header names.
pub open spec fn row_cell(header: Seq<char>, c: int, row: AllRow, agent: bool, cell: ContentModel) -> bool {
    &&& c == 0 ==> cell == ContentModel::Text(if agent {
        ""@
    } else {
        row.period@
    })
    &&& header == "Agent"@ ==> cell == ContentModel::Text(if agent {
        "- "@ + agent_label_text(row.agent@)
    } else if row.agent_breakdowns is Some {
        "All"@
    } else {
        agent_label_text(row.agent@)
    })
    &&& header == "Models"@ && row.agent_breakdowns is Some ==> cell == ContentModel::Text(""@)
    &&& header == "Models"@ && row.agent_breakdowns is None ==> {
        &&& cell is Models
        &&& cell->Models_0.len() == row.models_used@.len()
        &&& forall|i: int|
            0 <= i < row.models_used@.len() ==> #[trigger] cell->Models_0[i] == without_store(
                row.models_used@[i]@,
            )
    }
    &&& header == "Input"@ ==> cell == ContentModel::Number(row.input_tokens as nat)
    &&& header == "Output"@ ==> cell == ContentModel::Number(row.output_tokens as nat)
    &&& header == "Cache Create"@ ==> cell == ContentModel::Number(
        row.cache_creation_tokens as nat,
    )
    &&& header == "Cache Read"@ ==> cell == ContentModel::Number(row.cache_read_tokens as nat)
    &&& header == "Total Tokens"@ ==> cell == ContentModel::Number(
        together(
            row.input_tokens,
            row.output_tokens,
            row.cache_creation_tokens,
            row.cache_read_tokens,
        ),
    )
    &&& header == "Cost (USD)"@ ==> cell == ContentModel::Money(row.total_cost)
}

/// A cell of a model shows what its header names.
pub open spec fn model_cell(
    header: Seq<char>,
    c: int,
    model: ModelBreakdown,
    cell: ContentModel,
) -> bool {
    &&& c == 0 || header == "Agent"@ ==> cell == ContentModel::Text(""@)
    &&& header == "Models"@ ==> cell == ContentModel::ModelItem(without_store(model.model_name@))
    &&& header == "Input"@ ==> cell == ContentModel::Number(model.input_tokens as nat)
    &&& header == "Output"@ ==> cell == ContentModel::Number(model.output_tokens as nat)
    &&& header == "Cache Create"@ ==> cell == ContentModel::Number(
        model.cache_creation_tokens as nat,
    )
    &&& header == "Cache Read"@ ==> cell == ContentModel::Number(model.cache_read_tokens as nat)
    &&& header == "Total Tokens"@ ==> cell == ContentModel::Number(
        (model.input_tokens + model.output_tokens + model.cache_creation_tokens
            + model.cache_read_tokens) as nat,
    )
    &&& header == "Cost (USD)"@ ==> cell == ContentModel::Money(model.cost)
}

/// Whether a row shows no cost.
pub open spec fn costs_nothing(row: AllRow) -> bool {
    row.total_cost.bits == 0 || row.total_cost.bits == NEGATIVE_ZERO_BITS
}

/// How cell `c` of `count` is painted.
pub open spec fn paint_of(item: Shown, compact: bool, count: int, c: int) -> Paint {
    match item {
        Shown::Row(row) => {
            let bold = (c == 0 && row.period@.len() > 0) || (c == 1 && (row.agent_breakdowns is Some
                || agent_label_text(row.agent@) == "All"@));
            if compact {
                Paint::Plain
            } else if bold {
                Paint::Bold
            } else if c == count - 1 && costs_nothing(row) {
                Paint::Grey
            } else {
                Paint::Plain
            }
        },
        Shown::Agent(_) => Paint::Plain,
        Shown::Model(_) => if c >= 2 {
            Paint::Grey
        } else {
            Paint::Plain
        },
    }
}

/// A line has a cell under every header, and the cell shows what the header names.
pub open spec fn line_shows(
    line: LineModel,
    item: Shown,
    headers: Seq<&'static str>,
    compact: bool,
) -> bool {
    &&& line is Cells
    &&& line->Cells_0.len() == headers.len()
    &&& forall|c: int|
        0 <= c < headers.len() ==> {
            let cell = #[trigger] line->Cells_0[c];
            &&& match item {
                Shown::Row(row) => row_cell(headers[c]@, c, row, false, cell.content),
                Shown::Agent(row) => row_cell(headers[c]@, c, row, true, cell.content),
                Shown::Model(model) => model_cell(headers[c]@, c, model, cell.content),
            }
            &&& cell.paint == paint_of(item, compact, headers.len() as int, c)
        }
}

/// A cell of the last line shows the sum of what the rows have under its header.
pub open spec fn total_cell(
    header: Seq<char>,
    c: int,
    rows: Seq<AllRow>,
    cell: CellModel,
) -> bool {
    &&& c == 0 ==> cell.content == ContentModel::Text("Total"@)
    &&& header == "Agent"@ || header == "Models"@ ==> cell.content == ContentModel::Text(""@)
    &&& header == "Input"@ ==> cell.content == ContentModel::Number(
        sum_by(rows, |row: AllRow| row.input_tokens as nat),
    )
    &&& header == "Output"@ ==> cell.content == ContentModel::Number(
        sum_by(rows, |row: AllRow| row.output_tokens as nat),
    )
    &&& header == "Cache Create"@ ==> cell.content == ContentModel::Number(
        sum_by(rows, |row: AllRow| row.cache_creation_tokens as nat),
    )
    &&& header == "Cache Read"@ ==> cell.content == ContentModel::Number(
        sum_by(rows, |row: AllRow| row.cache_read_tokens as nat),
    )
    &&& header == "Total Tokens"@ ==> cell.content == ContentModel::Number(
        sum_by(
            rows,
            |row: AllRow|
                together(
                    row.input_tokens,
                    row.output_tokens,
                    row.cache_creation_tokens,
                    row.cache_read_tokens,
                ),
        ),
    )
    &&& header == "Cost (USD)"@ ==> {
        &&& cell.content is MoneySum
        &&& cell.content->MoneySum_0.len() == rows.len()
        &&& forall|i: int|
            0 <= i < rows.len() ==> #[trigger] cell.content->MoneySum_0[i] == rows[i].total_cost
    }
    &&& cell.paint == (if header == "Agent"@ || header == "Models"@ {
        Paint::Plain
    } else {
        Paint::Yellow
    })
}

/// The header reads `name`.
pub open spec fn reads(header: &'static str, name: Seq<char>) -> bool {
    header@ == name
}

/// A text's length and its first two characters, which tell the headers apart.
spec fn mark(name: Seq<char>) -> (nat, char, char) {
    (name.len(), name[0], name[1])
}

proof fn lemma_marks()
    ensures
        mark("Agent"@) == (5nat, 'A', 'g'),
        mark("Models"@) == (6nat, 'M', 'o'),
        mark("Input"@) == (5nat, 'I', 'n'),
        mark("Output"@) == (6nat, 'O', 'u'),
        mark("Cache Create"@) == (12nat, 'C', 'a'),
        mark("Cache Read"@) == (10nat, 'C', 'a'),
        mark("Total Tokens"@) == (12nat, 'T', 'o'),
        mark("Cost (USD)"@) == (10nat, 'C', 'o'),
        mark("Date"@) == (4nat, 'D', 'a'),
        mark("Week"@) == (4nat, 'W', 'e'),
        mark("Month"@) == (5nat, 'M', 'o'),
        mark("Session"@) == (7nat, 'S', 'e'),
{
    reveal_strlit("Agent");
    reveal_strlit("Models");
    reveal_strlit("Input");
    reveal_strlit("Output");
    reveal_strlit("Cache Create");
    reveal_strlit("Cache Read");
    reveal_strlit("Total Tokens");
    reveal_strlit("Cost (USD)");
    reveal_strlit("Date");
    reveal_strlit("Week");
    reveal_strlit("Month");
    reveal_strlit("Session");
}

/// Where each header stands: first what the rows are about, then the agent, the models, input and
/// output, in wide tables the cache and the total, and at the end the cost where it is wanted.
/// Texts stand to the left, counts and costs to the right.
pub proof fn headers_stand_in_order(kind: AgentReportKind, compact: bool, no_cost: bool)
    ensures
        ({
            let headers = columns(kind, compact, no_cost);
            let aligns = column_aligns(headers.len());
            &&& headers.len() == 5 + (if compact {
                0int
            } else {
                3
            }) + (if no_cost {
                0int
            } else {
                1
            })
            &&& aligns.len() == headers.len()
            &&& forall|c: int|
                0 <= c < headers.len() ==> {
                    let header = #[trigger] headers[c];
                    &&& reads(header, "Agent"@) <==> c == 1
                    &&& reads(header, "Models"@) <==> c == 2
                    &&& reads(header, "Input"@) <==> c == 3
                    &&& reads(header, "Output"@) <==> c == 4
                    &&& reads(header, "Cache Create"@) <==> c == 5 && !compact
                    &&& reads(header, "Cache Read"@) <==> c == 6 && !compact
                    &&& reads(header, "Total Tokens"@) <==> c == 7 && !compact
                    &&& reads(header, "Cost (USD)"@) <==> !no_cost && c == headers.len() - 1
                    &&& reads(header, "Date"@) <==> c == 0 && kind is Daily
                    &&& reads(header, "Week"@) <==> c == 0 && kind is Weekly
                    &&& reads(header, "Month"@) <==> c == 0 && kind is Monthly
                    &&& reads(header, "Session"@) <==> c == 0 && kind is Session
                    &&& aligns[c] == (if c == 0 || reads(header, "Agent"@) || reads(header, "Models"@) {
                        Align::Left
                    } else {
                        Align::Right
                    })
                }
        }),
{
    lemma_marks();
    let headers = columns(kind, compact, no_cost);
    let aligns = column_aligns(headers.len());
    assert(headers.len() == 5 + (if compact {
        0int
    } else {
        3
    }) + (if no_cost {
        0int
    } else {
        1
    }));
    assert(aligns.len() == headers.len());
    assert(headers[0] == first_column_text(kind));
    assert(headers[1] == "Agent");
    assert(headers[2] == "Models");
    assert(headers[3] == "Input");
    assert(headers[4] == "Output");
    assert(!compact ==> headers[5] == "Cache Create");
    assert(!compact ==> headers[6] == "Cache Read");
    assert(!compact ==> headers[7] == "Total Tokens");
    assert(!no_cost ==> headers[headers.len() - 1] == "Cost (USD)");
    assert forall|c: int| 0 <= c < headers.len() implies aligns[c] == (if c < 3 {
        Align::Left
    } else {
        Align::Right
    }) by {}
    assert forall|c: int| 0 <= c < headers.len() implies {
        ||| c == 0 && #[trigger] headers[c] == first_column_text(kind)
        ||| c == 1 && headers[c] == "Agent"
        ||| c == 2 && headers[c] == "Models"
        ||| c == 3 && headers[c] == "Input"
        ||| c == 4 && headers[c] == "Output"
        ||| c == 5 && !compact && headers[c] == "Cache Create"
        ||| c == 6 && !compact && headers[c] == "Cache Read"
        ||| c == 7 && !compact && headers[c] == "Total Tokens"
        ||| c == headers.len() - 1 && !no_cost && c != 0 && c != 1 && c != 2 && c != 3 && c != 4
            && headers[c] == "Cost (USD)"
    } by {}
}

/// The line of an item.
spec fn line_for(item: Shown, style: TableStyle) -> LineModel {
    match item {
        Shown::Row(row) => main_line(row, style),
        Shown::Agent(row) => LineModel::Cells(
            painted(row_cells(row, style.compact, true, style.no_cost), Paint::Plain),
        ),
        Shown::Model(model) => model_line(model, style.compact, style.no_cost),
    }
}

spec fn lines_for(list: Seq<Shown>, style: TableStyle) -> Seq<LineModel> {
    list.map_values(|item: Shown| line_for(item, style))
}

proof fn lemma_line_for(item: Shown, kind: AgentReportKind, style: TableStyle)
    ensures
        line_shows(
            line_for(item, style),
            item,
            columns(kind, style.compact, style.no_cost),
            style.compact,
        ),
{
    headers_stand_in_order(kind, style.compact, style.no_cost);
    let headers = columns(kind, style.compact, style.no_cost);
    let cells = line_for(item, style)->Cells_0;
    assert(cells.len() == headers.len());
    assert forall|c: int| 0 <= c < headers.len() implies {
        let cell = #[trigger] cells[c];
        &&& match item {
            Shown::Row(row) => row_cell(headers[c]@, c, row, false, cell.content),
            Shown::Agent(row) => row_cell(headers[c]@, c, row, true, cell.content),
            Shown::Model(model) => model_cell(headers[c]@, c, model, cell.content),
        }
        &&& cell.paint == paint_of(item, style.compact, headers.len() as int, c)
    } by {
        assert(headers[c]@ == headers[c]@);
    }
}

proof fn lemma_cell_lines_add(a: Seq<LineModel>, b: Seq<LineModel>)
    ensures
        cell_lines(a + b) == cell_lines(a) + cell_lines(b),
{
    Seq::filter_distributes_over_add(a, b, |line: LineModel| line is Cells);
}

proof fn lemma_cell_lines_all(lines: Seq<LineModel>)
    requires
        forall|i: int| 0 <= i < lines.len() ==> (#[trigger] lines[i]) is Cells,
    ensures
        cell_lines(lines) == lines,
    decreases lines.len(),
{
    let pred = |line: LineModel| line is Cells;
    if lines.len() == 0 {
        lines.lemma_filter_len(pred);
        assert(cell_lines(lines) =~= lines);
    } else {
        let rest = lines.drop_last();
        assert forall|i: int| 0 <= i < rest.len() implies (#[trigger] rest[i]) is Cells by {
            assert(rest[i] == lines[i]);
        }
        lemma_cell_lines_all(rest);
        assert(lines =~= rest.push(lines.last()));
        assert(lines[lines.len() - 1] is Cells);
        rest.lemma_filter_push(lines.last(), pred);
    }
}

proof fn lemma_cell_lines_separator()
    ensures
        cell_lines(seq![LineModel::Separator]) == Seq::<LineModel>::empty(),
{
    let pred = |line: LineModel| line is Cells;
    let none = Seq::<LineModel>::empty();
    none.lemma_filter_len(pred);
    none.lemma_filter_push(LineModel::Separator, pred);
    assert(none.push(LineModel::Separator) =~= seq![LineModel::Separator]);
    assert(cell_lines(seq![LineModel::Separator]) =~= none);
}

proof fn lemma_model_lines_kept(row: AllRow, style: TableStyle)
    ensures
        cell_lines(wanted_model_lines(row, style)) == lines_for(
            model_items(row.model_breakdowns@, style.breakdown),
            style,
        ),
        wanted_model_lines(row, style).len() == model_items(
            row.model_breakdowns@,
            style.breakdown,
        ).len(),
{
    let lines = wanted_model_lines(row, style);
    lemma_cell_lines_all(lines);
    assert(lines =~= lines_for(model_items(row.model_breakdowns@, style.breakdown), style));
}

proof fn lemma_lines_for_add(a: Seq<Shown>, b: Seq<Shown>, style: TableStyle)
    ensures
        lines_for(a + b, style) == lines_for(a, style) + lines_for(b, style),
{
    assert(lines_for(a + b, style) =~= lines_for(a, style) + lines_for(b, style));
}

proof fn lemma_agent_lines_kept(agents: Seq<AllRow>, style: TableStyle)
    ensures
        cell_lines(agent_lines(agents, style)) == lines_for(
            agent_items(agents, style.breakdown),
            style,
        ),
        agent_lines(agents, style).len() == agent_items(agents, style.breakdown).len() + (
        if agents.len() > 0 {
            agents.len() - 1
        } else {
            0
        }),
    decreases agents.len(),
{
    if agents.len() == 0 {
        lemma_cell_lines_all(agent_lines(agents, style));
        assert(lines_for(agent_items(agents, style.breakdown), style) =~= Seq::empty());
    } else {
        let rest = agents.drop_last();
        let agent = agents.last();
        let first = seq![line_for(Shown::Agent(agent), style)];
        let models = wanted_model_lines(agent, style);
        let model_shown = model_items(agent.model_breakdowns@, style.breakdown);
        let before = agent_lines(rest, style);
        let gap = seq![LineModel::Separator];
        lemma_agent_lines_kept(rest, style);
        lemma_model_lines_kept(agent, style);
        lemma_cell_lines_separator();
        lemma_cell_lines_all(first);
        lemma_cell_lines_add(first, models);
        lemma_cell_lines_add(before + gap, first + models);
        lemma_cell_lines_add(before, gap);
        let shown = agent_items(agents, style.breakdown);
        assert(shown =~= agent_items(rest, style.breakdown) + (seq![Shown::Agent(agent)]
            + model_shown));
        lemma_lines_for_add(
            agent_items(rest, style.breakdown),
            seq![Shown::Agent(agent)] + model_shown,
            style,
        );
        lemma_lines_for_add(seq![Shown::Agent(agent)], model_shown, style);
        assert(lines_for(seq![Shown::Agent(agent)], style) =~= first);
        if rest.len() == 0 {
            assert(agent_lines(agents, style) =~= first + models);
            assert(agent_items(rest, style.breakdown) =~= Seq::empty());
            assert(lines_for(shown, style) =~= first + lines_for(model_shown, style));
        } else {
            assert(agent_lines(agents, style) =~= before + gap + (first + models));
            assert(cell_lines(before) + Seq::<LineModel>::empty() =~= cell_lines(before));
        }
    }
}

proof fn lemma_row_lines_kept(row: AllRow, style: TableStyle)
    ensures
        cell_lines(row_lines(row, style)) == lines_for(row_items(row, style.breakdown), style),
        row_lines(row, style).len() == row_items(row, style.breakdown).len() + (
        match row.agent_breakdowns {
            Some(agents) if agents@.len() > 0 => agents@.len() - 1,
            _ => 0,
        }),
{
    let first = seq![main_line(row, style)];
    lemma_cell_lines_all(first);
    assert(lines_for(seq![Shown::Row(row)], style) =~= first);
    match row.agent_breakdowns {
        Some(agents) => {
            lemma_agent_lines_kept(agents@, style);
            lemma_cell_lines_add(first, agent_lines(agents@, style));
            lemma_lines_for_add(
                seq![Shown::Row(row)],
                agent_items(agents@, style.breakdown),
                style,
            );
        },
        None => {
            lemma_model_lines_kept(row, style);
            lemma_cell_lines_add(first, wanted_model_lines(row, style));
            lemma_lines_for_add(
                seq![Shown::Row(row)],
                model_items(row.model_breakdowns@, style.breakdown),
                style,
            );
        },
    }
}

proof fn lemma_body_lines_kept(rows: Seq<AllRow>, style: TableStyle)
    ensures
        cell_lines(body_lines(rows, style)) == lines_for(items(rows, style.breakdown), style),
        body_lines(rows, style).len() == items(rows, style.breakdown).len() + gaps(rows),
    decreases rows.len(),
{
    if rows.len() == 0 {
        lemma_cell_lines_all(body_lines(rows, style));
        assert(lines_for(items(rows, style.breakdown), style) =~= Seq::empty());
    } else {
        let rest = rows.drop_last();
        let row = rows.last();
        let earlier = body_lines(rest, style);
        let own = row_lines(row, style);
        let gap = if rows.len() > 1 && rows[rows.len() - 2].period@ != rows.last().period@ {
            seq![LineModel::Separator]
        } else {
            Seq::empty()
        };
        lemma_body_lines_kept(rest, style);
        lemma_row_lines_kept(row, style);
        lemma_cell_lines_separator();
        lemma_cell_lines_all(Seq::empty());
        lemma_cell_lines_add(earlier + gap, own);
        lemma_cell_lines_add(earlier, gap);
        lemma_lines_for_add(
            items(rest, style.breakdown),
            row_items(row, style.breakdown),
            style,
        );
        assert(cell_lines(earlier) + Seq::<LineModel>::empty() =~= cell_lines(earlier));
        assert(body_lines(rows, style) =~= earlier + gap + own);
    }
}

proof fn lemma_total_line(rows: Seq<AllRow>, kind: AgentReportKind, style: TableStyle)
    ensures
        ({
            let headers = columns(kind, style.compact, style.no_cost);
            let cells = total_cells(rows, style.compact, style.no_cost);
            &&& cells.len() == headers.len()
            &&& forall|c: int|
                0 <= c < headers.len() ==> total_cell(headers[c]@, c, rows, #[trigger] cells[c])
        }),
{
    headers_stand_in_order(kind, style.compact, style.no_cost);
    let headers = columns(kind, style.compact, style.no_cost);
    let cells = total_cells(rows, style.compact, style.no_cost);
    lemma_column_sums(rows);
    assert(cells.len() == headers.len());
    assert forall|c: int| 0 <= c < headers.len() implies total_cell(
        headers[c]@,
        c,
        rows,
        #[trigger] cells[c],
    ) by {
        assert(headers[c]@ == headers[c]@);
    }
}

proof fn lemma_column_sums(rows: Seq<AllRow>)
    ensures
        rows_counts(rows).input == sum_by(rows, |row: AllRow| row.input_tokens as nat),
        rows_counts(rows).output == sum_by(rows, |row: AllRow| row.output_tokens as nat),
        rows_counts(rows).cache_creation == sum_by(
            rows,
            |row: AllRow| row.cache_creation_tokens as nat,
        ),
        rows_counts(rows).cache_read == sum_by(rows, |row: AllRow| row.cache_read_tokens as nat),
        table_totals(rows) == sum_by(
            rows,
            |row: AllRow|
                together(
                    row.input_tokens,
                    row.output_tokens,
                    row.cache_creation_tokens,
                    row.cache_read_tokens,
                ),
        ),
        rows_costs(rows).len() == rows.len(),
        forall|i: int|
            0 <= i < rows.len() ==> #[trigger] rows_costs(rows)[i] == rows[i].total_cost,
    decreases rows.len(),
{
    if rows.len() > 0 {
        lemma_column_sums(rows.drop_last());
    }
}

/// Every line of a table shows what its headers name. Without the separators the lines are those
/// of the rows, each followed by its agents and, where they are wanted, its models; then the
/// total. In the total every cell shows the sum of what the rows have under its header.
pub proof fn cells_agree_with_their_headers(
    rows: Seq<AllRow>,
    kind: AgentReportKind,
    style: TableStyle,
    lines: Seq<LineModel>,
)
    requires
        lines == table_lines(rows, style),
    ensures
        ({
            let headers = columns(kind, style.compact, style.no_cost);
            let shown = items(rows, style.breakdown);
            let kept = cell_lines(lines);
            &&& kept.len() == shown.len() + 1
            &&& lines.len() == shown.len() + gaps(rows) + 2
            &&& forall|i: int|
                0 <= i < shown.len() ==> line_shows(
                    #[trigger] kept[i],
                    shown[i],
                    headers,
                    style.compact,
                )
            &&& lines.last() == kept.last()
            &&& lines.last() is Cells
            &&& lines.last()->Cells_0.len() == headers.len()
            &&& forall|c: int|
                0 <= c < headers.len() ==> total_cell(
                    headers[c]@,
                    c,
                    rows,
                    #[trigger] lines.last()->Cells_0[c],
                )
        }),
{
    let headers = columns(kind, style.compact, style.no_cost);
    let shown = items(rows, style.breakdown);
    let body = body_lines(rows, style);
    let gap = seq![LineModel::Separator];
    let total = seq![LineModel::Cells(total_cells(rows, style.compact, style.no_cost))];
    lemma_body_lines_kept(rows, style);
    lemma_total_line(rows, kind, style);
    lemma_cell_lines_separator();
    lemma_cell_lines_all(total);
    lemma_cell_lines_add(body + gap, total);
    lemma_cell_lines_add(body, gap);
    assert(lines =~= body + gap + total);
    let kept = cell_lines(lines);
    assert(kept =~= lines_for(shown, style) + total);
    assert forall|i: int| 0 <= i < shown.len() implies line_shows(
        #[trigger] kept[i],
        shown[i],
        headers,
        style.compact,
    ) by {
        assert(lines_for(shown, style)[i] == line_for(shown[i], style));
        lemma_line_for(shown[i], kind, style);
    }
}

/// The count that a line has in a column; zero where there is none.
pub open spec fn number_in(line: LineModel, c: int) -> nat {
    match line {
        LineModel::Cells(cells) => match cells[c].content {
            ContentModel::Number(n) => n,
            _ => 0,
        },
        LineModel::Separator => 0,
    }
}

/// The counts of a column add up to its total: `mains` are the lines of the rows themselves.
pub proof fn columns_add_up(
    rows: Seq<AllRow>,
    kind: AgentReportKind,
    style: TableStyle,
    lines: Seq<LineModel>,
    mains: Seq<LineModel>,
    c: int,
)
    requires
        lines == table_lines(rows, style),
        mains.len() == rows.len(),
        forall|i: int|
            0 <= i < rows.len() ==> line_shows(
                #[trigger] mains[i],
                Shown::Row(rows[i]),
                columns(kind, style.compact, style.no_cost),
                style.compact,
            ),
        3 <= c < columns(kind, style.compact, style.no_cost).len(),
        columns(kind, style.compact, style.no_cost)[c]@ != "Cost (USD)"@,
    ensures
        lines.last()->Cells_0[c].content == ContentModel::Number(
            sum_by(mains, |line: LineModel| number_in(line, c)),
        ),
{
    let headers = columns(kind, style.compact, style.no_cost);
    headers_stand_in_order(kind, style.compact, style.no_cost);
    cells_agree_with_their_headers(rows, kind, style, lines);
    let total = lines.last()->Cells_0[c];
    assert(total_cell(headers[c]@, c, rows, total));
    let number = |line: LineModel| number_in(line, c);
    let value = |row: AllRow|
        if headers[c]@ == "Input"@ {
            row.input_tokens as nat
        } else if headers[c]@ == "Output"@ {
            row.output_tokens as nat
        } else if headers[c]@ == "Cache Create"@ {
            row.cache_creation_tokens as nat
        } else if headers[c]@ == "Cache Read"@ {
            row.cache_read_tokens as nat
        } else {
            together(
                row.input_tokens,
                row.output_tokens,
                row.cache_creation_tokens,
                row.cache_read_tokens,
            )
        };
    assert forall|i: int| 0 <= i < mains.len() implies number(#[trigger] mains[i]) == value(
        rows[i],
    ) by {
        let cell = mains[i]->Cells_0[c];
        assert(row_cell(headers[c]@, c, rows[i], false, cell.content));
    }
    lemma_sum_same(mains, rows, number, value);
    let input = |row: AllRow| row.input_tokens as nat;
    let output = |row: AllRow| row.output_tokens as nat;
    let creation = |row: AllRow| row.cache_creation_tokens as nat;
    let read = |row: AllRow| row.cache_read_tokens as nat;
    let all = |row: AllRow|
        together(
            row.input_tokens,
            row.output_tokens,
            row.cache_creation_tokens,
            row.cache_read_tokens,
        );
    if c == 3 {
        lemma_sum_same(rows, rows, value, input);
    } else if c == 4 {
        lemma_sum_same(rows, rows, value, output);
    } else if c == 5 {
        lemma_sum_same(rows, rows, value, creation);
    } else if c == 6 {
        lemma_sum_same(rows, rows, value, read);
    } else {
        lemma_sum_same(rows, rows, value, all);
    }
}

/// Usage for the check of missing prices has every token of its row once: the four counts, and
/// beyond them what the row's total has more.
pub proof fn summaries_keep_every_token(row: AllRow, summary: UsageSummary)
    requires
        is_summary(row, summary),
    ensures
        summary.input_tokens == row.input_tokens,
        summary.output_tokens == row.output_tokens,
        summary.cache_creation_tokens == row.cache_creation_tokens,
        summary.cache_read_tokens == row.cache_read_tokens,
        summary.total_cost == row.total_cost,
        summary.models_used@ == row.models_used@,
        summary.model_breakdowns@ == row.model_breakdowns@,
        row.total_tokens >= row.input_tokens + row.output_tokens + row.cache_creation_tokens
            + row.cache_read_tokens ==> summary.input_tokens + summary.output_tokens
            + summary.cache_creation_tokens + summary.cache_read_tokens
            + summary.extra_total_tokens == row.total_tokens,
        row.total_tokens < row.input_tokens + row.output_tokens + row.cache_creation_tokens
            + row.cache_read_tokens ==> summary.extra_total_tokens == 0,
{
}

/// The tokens of each model fit a machine integer.
pub open spec fn each_model_fits(models: Seq<ModelBreakdown>) -> bool {
    forall|m: int|
        0 <= m < models.len() ==> (#[trigger] models[m]).input_tokens + models[m].output_tokens
            + models[m].cache_creation_tokens + models[m].cache_read_tokens <= u64::MAX
}

/// A table fits exactly when the sums of its rows and of its `Total Tokens` column do, and where
/// models are wanted, the tokens of each model that it shows.
pub proof fn tables_fit_where_every_sum_does(rows: Seq<AllRow>, style: TableStyle)
    ensures
        table_fits(rows, style) <==> {
            &&& sums_fit(rows)
            &&& sum_by(
                rows,
                |row: AllRow|
                    together(
                        row.input_tokens,
                        row.output_tokens,
                        row.cache_creation_tokens,
                        row.cache_read_tokens,
                    ),
            ) <= u64::MAX
            &&& style.breakdown ==> forall|r: int|
                0 <= r < rows.len() ==> match (#[trigger] rows[r]).agent_breakdowns {
                    Some(agents) => forall|a: int|
                        0 <= a < agents@.len() ==> each_model_fits(
                            (#[trigger] agents@[a]).model_breakdowns@,
                        ),
                    None => each_model_fits(rows[r].model_breakdowns@),
                }
        },
{
    lemma_column_sums(rows);
    assert forall|models: Seq<ModelBreakdown>| models_fit(models) == #[trigger] each_model_fits(
        models,
    ) by {
        assert forall|m: int| 0 <= m < models.len() implies (#[trigger] models[m]).counts().sum()
            == models[m].input_tokens + models[m].output_tokens + models[m].cache_creation_tokens
            + models[m].cache_read_tokens by {}
    }
    assert forall|r: int| 0 <= r < rows.len() implies row_models_fit(#[trigger] rows[r]) == (
    match rows[r].agent_breakdowns {
        Some(agents) => forall|a: int|
            0 <= a < agents@.len() ==> each_model_fits((#[trigger] agents@[a]).model_breakdowns@),
        None => each_model_fits(rows[r].model_breakdowns@),
    }) by {
        if let Some(agents) = rows[r].agent_breakdowns {
            assert forall|a: int| 0 <= a < agents@.len() implies models_fit(
                (#[trigger] agents@[a]).model_breakdowns@,
            ) == each_model_fits(agents@[a].model_breakdowns@) by {}
        } else {
            assert(models_fit(rows[r].model_breakdowns@) == each_model_fits(
                rows[r].model_breakdowns@,
            ));
        }
    }
}

} // verus!
