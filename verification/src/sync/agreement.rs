//! What the report of a sync says of its rows, and how it agrees with itself.

use vstd::prelude::*;
use vstd::string::*;
use crate::all::agreement::{lists_texts, says};
use crate::all::columns::{number_in, reads};
use crate::cost::{Cost, NEGATIVE_ZERO_BITS};
use crate::json::{texts_model, JsonModel};
use crate::names::is_sorted_set;
use crate::sums::{lemma_sum_same, sum_by};
use crate::sync::report::{
    dates_of, days_fields, merged_row_fields, report_fits, row_costs, rows_of_date, rows_total,
    sync_aligns, sync_body, sync_columns, sync_lines, sync_total_cells, totals_fields,
};
use crate::sync::snapshot::MergedRow;
use crate::tally::CellTotals;
use crate::table::{Align, CellModel, ContentModel, LineModel, Paint};

verus! {

/// The row has tokens of some kind, or a cost.
pub open spec fn is_used(row: MergedRow<Cost>) -> bool {
    ||| row.input_tokens > 0
    ||| row.output_tokens > 0
    ||| row.cache_creation_tokens > 0
    ||| row.cache_read_tokens > 0
    ||| row.cost.bits != 0 && row.cost.bits != NEGATIVE_ZERO_BITS
}

/// The row is of the date, and has tokens or a cost.
pub open spec fn is_on(row: MergedRow<Cost>, date: Seq<char>) -> bool {
    row.date@ == date && is_used(row)
}

/// The rows of a date that have tokens or a cost, in order.
pub open spec fn rows_on(rows: Seq<MergedRow<Cost>>, date: Seq<char>) -> Seq<MergedRow<Cost>> {
    rows.filter(|row: MergedRow<Cost>| is_on(row, date))
}

/// The document says of a row whose it is, what was used and what it cost, and nothing else.
pub open spec fn tells_merged(doc: JsonModel, row: MergedRow<Cost>) -> bool {
    let fields = doc->Object_0;
    &&& doc is Object
    &&& fields.len() == 7
    &&& says(fields, "agent"@, JsonModel::Text(row.agent@))
    &&& says(fields, "machine"@, JsonModel::Text(row.machine@))
    &&& says(fields, "inputTokens"@, JsonModel::Number(row.input_tokens as nat))
    &&& says(fields, "outputTokens"@, JsonModel::Number(row.output_tokens as nat))
    &&& says(fields, "cacheCreationTokens"@, JsonModel::Number(row.cache_creation_tokens as nat))
    &&& says(fields, "cacheReadTokens"@, JsonModel::Number(row.cache_read_tokens as nat))
    &&& says(fields, "cost"@, JsonModel::Money(row.cost))
}

/// The document lists the given rows, in order.
pub open spec fn lists_merged(doc: JsonModel, rows: Seq<MergedRow<Cost>>) -> bool {
    &&& doc is Array
    &&& doc->Array_0.len() == rows.len()
    &&& forall|i: int| 0 <= i < rows.len() ==> tells_merged(#[trigger] doc->Array_0[i], rows[i])
}

/// All tokens of a row together.
pub open spec fn all_tokens(row: MergedRow<Cost>) -> nat {
    row.input_tokens as nat + row.output_tokens as nat + row.cache_creation_tokens as nat
        + row.cache_read_tokens as nat
}

/// The document has the sums of what the rows used, and their costs in order.
pub open spec fn adds_up_merged(doc: JsonModel, rows: Seq<MergedRow<Cost>>) -> bool {
    let fields = doc->Object_0;
    &&& doc is Object
    &&& fields.len() == 6
    &&& says(
        fields,
        "inputTokens"@,
        JsonModel::Number(sum_by(rows, |row: MergedRow<Cost>| row.input_tokens as nat)),
    )
    &&& says(
        fields,
        "outputTokens"@,
        JsonModel::Number(sum_by(rows, |row: MergedRow<Cost>| row.output_tokens as nat)),
    )
    &&& says(
        fields,
        "cacheCreationTokens"@,
        JsonModel::Number(sum_by(rows, |row: MergedRow<Cost>| row.cache_creation_tokens as nat)),
    )
    &&& says(
        fields,
        "cacheReadTokens"@,
        JsonModel::Number(sum_by(rows, |row: MergedRow<Cost>| row.cache_read_tokens as nat)),
    )
    &&& says(
        fields,
        "totalTokens"@,
        JsonModel::Number(sum_by(rows, |row: MergedRow<Cost>| all_tokens(row))),
    )
    &&& says(
        fields,
        "totalCost"@,
        JsonModel::MoneySum(Seq::new(rows.len(), |i: int| rows[i].cost)),
    )
}

/// A name's length and its first character, which tell the names of a document apart.
spec fn mark(name: Seq<char>) -> (nat, char) {
    (name.len(), name[0])
}

proof fn lemma_marks()
    ensures
        mark("agent"@) == (5nat, 'a'),
        mark("machine"@) == (7nat, 'm'),
        mark("inputTokens"@) == (11nat, 'i'),
        mark("outputTokens"@) == (12nat, 'o'),
        mark("cacheCreationTokens"@) == (19nat, 'c'),
        mark("cacheReadTokens"@) == (15nat, 'c'),
        mark("totalTokens"@) == (11nat, 't'),
        mark("totalCost"@) == (9nat, 't'),
        mark("cost"@) == (4nat, 'c'),
{
    reveal_strlit("agent");
    reveal_strlit("machine");
    reveal_strlit("inputTokens");
    reveal_strlit("outputTokens");
    reveal_strlit("cacheCreationTokens");
    reveal_strlit("cacheReadTokens");
    reveal_strlit("totalTokens");
    reveal_strlit("totalCost");
    reveal_strlit("cost");
}

proof fn lemma_says(fields: Seq<(Seq<char>, JsonModel)>, at: int)
    requires
        0 <= at < fields.len(),
        forall|i: int|
            0 <= i < fields.len() && i != at ==> mark((#[trigger] fields[i]).0) != mark(
                fields[at].0,
            ),
    ensures
        says(fields, fields[at].0, fields[at].1),
{
    assert(fields[at] == (fields[at].0, fields[at].1));
}

proof fn lemma_merged_fields(row: MergedRow<Cost>)
    ensures
        tells_merged(JsonModel::Object(merged_row_fields(row)), row),
{
    let fields = merged_row_fields(row);
    lemma_marks();
    lemma_says(fields, 0);
    lemma_says(fields, 1);
    lemma_says(fields, 2);
    lemma_says(fields, 3);
    lemma_says(fields, 4);
    lemma_says(fields, 5);
    lemma_says(fields, 6);
}

proof fn lemma_date_listed(rows: Seq<MergedRow<Cost>>, date: Seq<char>)
    ensures
        lists_merged(JsonModel::Array(rows_of_date(rows, date)), rows_on(rows, date)),
    decreases rows.len(),
{
    let pred = |row: MergedRow<Cost>| is_on(row, date);
    if rows.len() == 0 {
        rows.lemma_filter_len(pred);
    } else {
        let rest = rows.drop_last();
        let last = rows.last();
        lemma_date_listed(rest, date);
        assert(rows =~= rest.push(last));
        rest.lemma_filter_push(last, pred);
        if is_on(last, date) {
            let before = rows_of_date(rest, date);
            let doc = JsonModel::Array(rows_of_date(rows, date));
            let kept = rows_on(rows, date);
            lemma_merged_fields(last);
            assert forall|i: int| 0 <= i < kept.len() implies tells_merged(
                #[trigger] doc->Array_0[i],
                kept[i],
            ) by {
                if i < before.len() {
                    assert(tells_merged(JsonModel::Array(before)->Array_0[i], rows_on(rest, date)[i]));
                }
            }
        }
    }
}

proof fn lemma_dates(rows: Seq<MergedRow<Cost>>, date: Seq<char>)
    ensures
        dates_of(rows).contains(date) <==> exists|i: int|
            0 <= i < rows.len() && is_on(#[trigger] rows[i], date),
    decreases rows.len(),
{
    if rows.len() > 0 {
        let rest = rows.drop_last();
        let last = rows.last();
        let n = rows.len() - 1;
        lemma_dates(rest, date);
        if dates_of(rows).contains(date) {
            if dates_of(rest).contains(date) {
                let i = choose|i: int| 0 <= i < rest.len() && is_on(#[trigger] rest[i], date);
                assert(is_on(rows[i], date));
            } else {
                let k = choose|k: int| 0 <= k < dates_of(rows).len() && dates_of(rows)[k] == date;
                if k < dates_of(rest).len() {
                    assert(dates_of(rest)[k] == date);
                }
                assert(is_on(rows[n], date));
            }
        }
        if exists|i: int| 0 <= i < rows.len() && is_on(#[trigger] rows[i], date) {
            let i = choose|i: int| 0 <= i < rows.len() && is_on(#[trigger] rows[i], date);
            if i < n {
                assert(is_on(rest[i], date));
                assert(dates_of(rest).contains(date));
                let k = choose|k: int| 0 <= k < dates_of(rest).len() && dates_of(rest)[k] == date;
                assert(dates_of(rows)[k] == date);
            } else {
                assert(dates_of(rows)[dates_of(rows).len() - 1] == date);
            }
        }
    }
}

proof fn lemma_merged_sums(rows: Seq<MergedRow<Cost>>)
    ensures
        rows_total(rows).input == sum_by(rows, |row: MergedRow<Cost>| row.input_tokens as nat),
        rows_total(rows).output == sum_by(rows, |row: MergedRow<Cost>| row.output_tokens as nat),
        rows_total(rows).cache_creation == sum_by(
            rows,
            |row: MergedRow<Cost>| row.cache_creation_tokens as nat,
        ),
        rows_total(rows).cache_read == sum_by(
            rows,
            |row: MergedRow<Cost>| row.cache_read_tokens as nat,
        ),
        rows_total(rows).sum() == sum_by(rows, |row: MergedRow<Cost>| all_tokens(row)),
    decreases rows.len(),
{
    if rows.len() > 0 {
        lemma_merged_sums(rows.drop_last());
    }
}

/// The sums of the columns of a sync report, read off its rows.
pub proof fn sync_column_sums_add_up(rows: Seq<MergedRow<Cost>>, totals: CellTotals<Vec<Cost>>)
    requires
        totals.counts() == rows_total(rows),
        totals.cost@ == row_costs(rows),
    ensures
        totals.input_tokens == sum_by(rows, |row: MergedRow<Cost>| row.input_tokens as nat),
        totals.output_tokens == sum_by(rows, |row: MergedRow<Cost>| row.output_tokens as nat),
        totals.cache_creation_tokens == sum_by(
            rows,
            |row: MergedRow<Cost>| row.cache_creation_tokens as nat,
        ),
        totals.cache_read_tokens == sum_by(rows, |row: MergedRow<Cost>| row.cache_read_tokens as nat),
        totals.cost@ == Seq::new(rows.len(), |i: int| rows[i].cost),
{
    lemma_merged_sums(rows);
    assert(row_costs(rows) =~= Seq::new(rows.len(), |i: int| rows[i].cost));
}

/// The totals of a sync report are the sums over its rows.
pub proof fn sync_totals_add_up(rows: Seq<MergedRow<Cost>>, doc: JsonModel)
    requires
        doc == JsonModel::Object(totals_fields(rows)),
    ensures
        adds_up_merged(doc, rows),
{
    let fields = totals_fields(rows);
    lemma_marks();
    lemma_merged_sums(rows);
    assert(row_costs(rows) =~= Seq::new(rows.len(), |i: int| rows[i].cost));
    lemma_says(fields, 0);
    lemma_says(fields, 1);
    lemma_says(fields, 2);
    lemma_says(fields, 3);
    lemma_says(fields, 4);
    lemma_says(fields, 5);
}

/// The document of a sync lists the machines, under every date the rows of that date that have
/// tokens or a cost, in order, and at the end the sums over all rows. There is a date for every
/// such row, and no other.
pub proof fn sync_documents_list_their_rows(
    rows: Seq<MergedRow<Cost>>,
    machines: Seq<String>,
    dates: Seq<Seq<char>>,
    doc: JsonModel,
)
    requires
        is_sorted_set(dates_of(rows), dates),
        doc == JsonModel::Object(
            seq![
                ("machines"@, texts_model(machines)),
                ("days"@, JsonModel::Object(days_fields(rows, dates))),
                ("totals"@, JsonModel::Object(totals_fields(rows))),
            ],
        ),
    ensures
        doc->Object_0.len() == 3,
        doc->Object_0[0].0 == "machines"@,
        lists_texts(doc->Object_0[0].1, machines),
        doc->Object_0[1].0 == "days"@,
        doc->Object_0[1].1 is Object,
        doc->Object_0[1].1->Object_0.len() == dates.len(),
        forall|d: int|
            0 <= d < dates.len() ==> {
                let day = #[trigger] doc->Object_0[1].1->Object_0[d];
                &&& day.0 == dates[d]
                &&& lists_merged(day.1, rows_on(rows, dates[d]))
            },
        forall|i: int|
            0 <= i < rows.len() && is_used(#[trigger] rows[i]) ==> dates.contains(rows[i].date@),
        forall|d: int|
            0 <= d < dates.len() ==> exists|i: int|
                0 <= i < rows.len() && is_on(#[trigger] rows[i], #[trigger] dates[d]),
        doc->Object_0[2].0 == "totals"@,
        adds_up_merged(doc->Object_0[2].1, rows),
{
    let days = doc->Object_0[1].1->Object_0;
    assert forall|d: int| 0 <= d < dates.len() implies {
        let day = #[trigger] days[d];
        &&& day.0 == dates[d]
        &&& lists_merged(day.1, rows_on(rows, dates[d]))
    } by {
        lemma_date_listed(rows, dates[d]);
    }
    assert forall|i: int|
        0 <= i < rows.len() && is_used(#[trigger] rows[i]) implies dates.contains(
        rows[i].date@,
    ) by {
        assert(is_on(rows[i], rows[i].date@));
        lemma_dates(rows, rows[i].date@);
    }
    assert forall|d: int| 0 <= d < dates.len() implies exists|i: int|
        0 <= i < rows.len() && is_on(#[trigger] rows[i], #[trigger] dates[d]) by {
        lemma_dates(rows, dates[d]);
        assert(dates.contains(dates[d]));
    }
    sync_totals_add_up(rows, doc->Object_0[2].1);
}

/// A header's length and its first two characters, which tell the headers apart.
spec fn header_mark(name: Seq<char>) -> (nat, char, char) {
    (name.len(), name[0], name[1])
}

proof fn lemma_header_marks()
    ensures
        header_mark("Date"@) == (4nat, 'D', 'a'),
        header_mark("Machine"@) == (7nat, 'M', 'a'),
        header_mark("Agent"@) == (5nat, 'A', 'g'),
        header_mark("Input"@) == (5nat, 'I', 'n'),
        header_mark("Output"@) == (6nat, 'O', 'u'),
        header_mark("Cache Read"@) == (10nat, 'C', 'a'),
        header_mark("Cost (USD)"@) == (10nat, 'C', 'o'),
{
    reveal_strlit("Date");
    reveal_strlit("Machine");
    reveal_strlit("Agent");
    reveal_strlit("Input");
    reveal_strlit("Output");
    reveal_strlit("Cache Read");
    reveal_strlit("Cost (USD)");
}

/// A cell of a row shows what its header names. The date stands only where it differs from that
/// of the row before.
pub open spec fn sync_cell(
    header: Seq<char>,
    rows: Seq<MergedRow<Cost>>,
    i: int,
    cell: CellModel,
) -> bool {
    &&& header == "Date"@ ==> cell.content == ContentModel::Text(
        if i > 0 && rows[i - 1].date@ == rows[i].date@ {
            ""@
        } else {
            rows[i].date@
        },
    )
    &&& header == "Machine"@ ==> cell.content == ContentModel::Text(rows[i].machine@)
    &&& header == "Agent"@ ==> cell.content == ContentModel::Text(rows[i].agent@)
    &&& header == "Input"@ ==> cell.content == ContentModel::Number(rows[i].input_tokens as nat)
    &&& header == "Output"@ ==> cell.content == ContentModel::Number(rows[i].output_tokens as nat)
    &&& header == "Cache Read"@ ==> cell.content == ContentModel::Number(
        rows[i].cache_read_tokens as nat,
    )
    &&& header == "Cost (USD)"@ ==> cell.content == ContentModel::Money(rows[i].cost)
    &&& cell.paint is Plain
}

/// A cell of the last line shows the sum of what the rows have under its header.
pub open spec fn sync_total_cell(
    header: Seq<char>,
    rows: Seq<MergedRow<Cost>>,
    cell: CellModel,
) -> bool {
    &&& header == "Date"@ ==> cell.content == ContentModel::Text("Total"@)
    &&& header == "Machine"@ || header == "Agent"@ ==> cell.content == ContentModel::Text(""@)
    &&& header == "Input"@ ==> cell.content == ContentModel::Number(
        sum_by(rows, |row: MergedRow<Cost>| row.input_tokens as nat),
    )
    &&& header == "Output"@ ==> cell.content == ContentModel::Number(
        sum_by(rows, |row: MergedRow<Cost>| row.output_tokens as nat),
    )
    &&& header == "Cache Read"@ ==> cell.content == ContentModel::Number(
        sum_by(rows, |row: MergedRow<Cost>| row.cache_read_tokens as nat),
    )
    &&& header == "Cost (USD)"@ ==> {
        &&& cell.content is MoneySum
        &&& cell.content->MoneySum_0.len() == rows.len()
        &&& forall|i: int|
            0 <= i < rows.len() ==> #[trigger] cell.content->MoneySum_0[i] == rows[i].cost
    }
    &&& cell.paint == (if header == "Machine"@ || header == "Agent"@ {
        Paint::Plain
    } else {
        Paint::Yellow
    })
}

/// Where each header stands: the date, the machine where it is wanted, the agent, input, output,
/// what was read from the cache and the cost. Texts stand to the left, counts and costs to the
/// right.
pub proof fn sync_headers_stand_in_order(by_machine: bool)
    ensures
        ({
            let headers = sync_columns(by_machine);
            let aligns = sync_aligns(by_machine);
            let m = if by_machine {
                1int
            } else {
                0
            };
            &&& headers.len() == 6 + m
            &&& aligns.len() == headers.len()
            &&& forall|c: int|
                0 <= c < headers.len() ==> {
                    let header = #[trigger] headers[c];
                    &&& reads(header, "Date"@) <==> c == 0
                    &&& reads(header, "Machine"@) <==> c == 1 && by_machine
                    &&& reads(header, "Agent"@) <==> c == 1 + m
                    &&& reads(header, "Input"@) <==> c == 2 + m
                    &&& reads(header, "Output"@) <==> c == 3 + m
                    &&& reads(header, "Cache Read"@) <==> c == 4 + m
                    &&& reads(header, "Cost (USD)"@) <==> c == 5 + m
                    &&& aligns[c] == (if reads(header, "Date"@) || reads(header, "Machine"@)
                        || reads(header, "Agent"@) {
                        Align::Left
                    } else {
                        Align::Right
                    })
                }
        }),
{
    lemma_header_marks();
    let headers = sync_columns(by_machine);
    let m = if by_machine {
        1int
    } else {
        0
    };
    assert(headers.len() == 6 + m);
    assert forall|c: int| 0 <= c < headers.len() implies {
        ||| c == 0 && #[trigger] headers[c] == "Date"
        ||| c == 1 && by_machine && headers[c] == "Machine"
        ||| c == 1 + m && headers[c] == "Agent"
        ||| c == 2 + m && headers[c] == "Input"
        ||| c == 3 + m && headers[c] == "Output"
        ||| c == 4 + m && headers[c] == "Cache Read"
        ||| c == 5 + m && headers[c] == "Cost (USD)"
    } by {}
}

/// Every line of the table shows what its headers name: a line for each row, in order, a
/// separator, and the total, in which every cell shows the sum of what the rows have under its
/// header.
pub proof fn sync_cells_agree_with_their_headers(
    rows: Seq<MergedRow<Cost>>,
    by_machine: bool,
    lines: Seq<LineModel>,
)
    requires
        lines == sync_lines(rows, by_machine),
    ensures
        lines.len() == rows.len() + 2,
        forall|i: int|
            0 <= i < rows.len() ==> {
                &&& (#[trigger] lines[i]) is Cells
                &&& lines[i]->Cells_0.len() == sync_columns(by_machine).len()
            },
        forall|i: int, c: int|
            0 <= i < rows.len() && 0 <= c < sync_columns(by_machine).len() ==> sync_cell(
                sync_columns(by_machine)[c]@,
                rows,
                i,
                #[trigger] lines[i]->Cells_0[c],
            ),
        lines[rows.len() as int] is Separator,
        lines.last() is Cells,
        lines.last()->Cells_0.len() == sync_columns(by_machine).len(),
        forall|c: int|
            0 <= c < sync_columns(by_machine).len() ==> sync_total_cell(
                sync_columns(by_machine)[c]@,
                rows,
                #[trigger] lines.last()->Cells_0[c],
            ),
{
    let headers = sync_columns(by_machine);
    sync_headers_stand_in_order(by_machine);
    lemma_merged_sums(rows);
    let body = sync_body(rows, by_machine);
    assert forall|i: int| 0 <= i < rows.len() implies {
        &&& (#[trigger] lines[i]) is Cells
        &&& lines[i]->Cells_0.len() == headers.len()
    } by {
        assert(lines[i] == body[i]);
    }
    assert forall|i: int, c: int|
        0 <= i < rows.len() && 0 <= c < headers.len() implies sync_cell(
        headers[c]@,
        rows,
        i,
        #[trigger] lines[i]->Cells_0[c],
    ) by {
        assert(lines[i] == body[i]);
        assert(reads(headers[c], headers[c]@));
    }
    assert(lines.last() == LineModel::Cells(sync_total_cells(rows, by_machine)));
    assert forall|c: int| 0 <= c < headers.len() implies sync_total_cell(
        headers[c]@,
        rows,
        #[trigger] lines.last()->Cells_0[c],
    ) by {
        assert(reads(headers[c], headers[c]@));
    }
}

/// The counts of a column add up to its total.
pub proof fn sync_columns_add_up(
    rows: Seq<MergedRow<Cost>>,
    by_machine: bool,
    lines: Seq<LineModel>,
    c: int,
)
    requires
        lines == sync_lines(rows, by_machine),
        0 <= c < sync_columns(by_machine).len(),
        ({
            let header = sync_columns(by_machine)[c];
            reads(header, "Input"@) || reads(header, "Output"@) || reads(header, "Cache Read"@)
        }),
    ensures
        lines.last()->Cells_0[c].content == ContentModel::Number(
            sum_by(lines.take(rows.len() as int), |line: LineModel| number_in(line, c)),
        ),
{
    let header = sync_columns(by_machine)[c];
    sync_headers_stand_in_order(by_machine);
    sync_cells_agree_with_their_headers(rows, by_machine, lines);
    let mains = lines.take(rows.len() as int);
    let number = |line: LineModel| number_in(line, c);
    let input = |row: MergedRow<Cost>| row.input_tokens as nat;
    let output = |row: MergedRow<Cost>| row.output_tokens as nat;
    let read = |row: MergedRow<Cost>| row.cache_read_tokens as nat;
    let value = if reads(header, "Input"@) {
        input
    } else if reads(header, "Output"@) {
        output
    } else {
        read
    };
    assert forall|i: int| 0 <= i < mains.len() implies number(#[trigger] mains[i]) == value(
        rows[i],
    ) by {
        assert(mains[i] == lines[i]);
        assert(sync_cell(header@, rows, i, lines[i]->Cells_0[c]));
    }
    lemma_sum_same(mains, rows, number, value);
    assert(sync_total_cell(header@, rows, lines.last()->Cells_0[c]));
}

/// The sums of a sync report fit exactly when all its tokens together do.
pub proof fn reports_fit_where_all_tokens_do(rows: Seq<MergedRow<Cost>>)
    ensures
        report_fits(rows) <==> sum_by(rows, |row: MergedRow<Cost>| all_tokens(row)) <= u64::MAX,
{
    lemma_merged_sums(rows);
}

} // verus!
